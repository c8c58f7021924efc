use vstd::prelude::*;
use crate::text::{
    join_lines, join_strings_lines, join_with, lemma_split_lf_len, lines_of, split_lf, str_eq, strings_view, strip_cr, text_lines,
};

verus! {

/// Why an edit of a source file was refused.
#[derive(Debug, PartialEq, Eq, Structural)]
pub enum EditError {
    /// Line numbers start at 1.
    LineZero,
}

impl EditError {
    /// The message shown for the error.
    pub fn message(&self) -> (res: &'static str)
        ensures
            res@ == "Line number must be 1 or greater"@,
    {
        "Line number must be 1 or greater"
    }
}

/// The lines after writing `content` as line `line` (numbered from 1): it is
/// inserted before the line that held that number, or, past the end, after as
/// many empty lines as it takes to give it that number.
pub open spec fn inserted_lines(lines: Seq<Seq<char>>, line: int, content: Seq<char>) -> Seq<Seq<char>> {
    if line - 1 >= lines.len() {
        lines + Seq::new((line - 1 - lines.len()) as nat, |i: int| Seq::<char>::empty()) + seq![content]
    } else {
        lines.insert(line - 1, content)
    }
}

/// The lines after deleting line `line` (numbered from 1); a number out of
/// range deletes nothing.
pub open spec fn deleted_lines(lines: Seq<Seq<char>>, line: int) -> Seq<Seq<char>> {
    if 0 < line <= lines.len() {
        lines.remove(line - 1)
    } else {
        lines
    }
}

/// Writes `content` as line `line` of `lines`.
pub fn insert_line(lines: &mut Vec<String>, line: usize, content: String)
    requires
        line >= 1,
    ensures
        strings_view(final(lines)@) == inserted_lines(strings_view(old(lines)@), line as int, content@),
{
    let ghost before = strings_view(lines@);
    let ghost c = content@;
    if line - 1 >= lines.len() {
        while lines.len() < line - 1
            invariant
                line >= 1,
                before.len() <= lines@.len() <= line - 1,
                strings_view(lines@) == before + Seq::new((lines@.len() - before.len()) as nat, |i: int| Seq::<char>::empty()),
            decreases line - 1 - lines@.len(),
        {
            let ghost prev = strings_view(lines@);
            lines.push(String::new());
            assert(strings_view(lines@) =~= prev.push(Seq::<char>::empty()));
            assert(strings_view(lines@) =~= before + Seq::new((lines@.len() - before.len()) as nat, |i: int| Seq::<char>::empty()));
        }
        lines.push(content);
        assert(strings_view(lines@) =~= inserted_lines(before, line as int, c));
    } else {
        lines.insert(line - 1, content);
        assert(strings_view(lines@) =~= before.insert(line - 1, c));
    }
}

/// Deletes line `line` of `lines`, if there is such a line.
pub fn delete_line(lines: &mut Vec<String>, line: usize)
    ensures
        strings_view(final(lines)@) == deleted_lines(strings_view(old(lines)@), line as int),
{
    let ghost before = strings_view(lines@);
    if line > 0 && line <= lines.len() {
        lines.remove(line - 1);
        assert(strings_view(lines@) =~= before.remove(line - 1));
    }
}

/// The text after writing line `line` of `text`: its lines with the content
/// written, joined by line feeds.
pub open spec fn written_text(text: Seq<char>, line: int, content: Seq<char>) -> Seq<char> {
    join_lines(inserted_lines(text_lines(text), line, content))
}

/// The text after deleting line `line` of `text`.
pub open spec fn deleted_text(text: Seq<char>, line: int) -> Seq<char> {
    join_lines(deleted_lines(text_lines(text), line))
}

/// The new text of a file whose line `line` is written with `content` (an
/// empty line when there is none); line 0 is refused.
pub fn write_line_in_text(text: &str, line: usize, content: Option<String>) -> (res: Result<String, EditError>)
    ensures
        line == 0 ==> res == Err::<String, EditError>(EditError::LineZero),
        line >= 1 ==> (res matches Ok(t) && t@ == written_text(
            text@,
            line as int,
            match content {
                Some(c) => c@,
                None => Seq::<char>::empty(),
            },
        )),
{
    if line == 0 {
        return Err(EditError::LineZero);
    }
    let mut lines = lines_of(text);
    let new_line = match content {
        Some(c) => c,
        None => String::new(),
    };
    insert_line(&mut lines, line, new_line);
    Ok(join_strings_lines(lines.as_slice()))
}

/// The new text of a file whose line `line` is deleted (unchanged lines, joined
/// by line feeds, when there is no such line).
pub fn delete_line_in_text(text: &str, line: usize) -> (res: String)
    ensures
        res@ == deleted_text(text@, line as int),
{
    let mut lines = lines_of(text);
    delete_line(&mut lines, line);
    join_strings_lines(lines.as_slice())
}

/// Deleting the line just written gives back the lines before the write,
/// when the write needed no padding.
pub proof fn law_delete_undoes_write(lines: Seq<Seq<char>>, line: int, content: Seq<char>)
    requires
        1 <= line <= lines.len() + 1,
    ensures
        deleted_lines(inserted_lines(lines, line, content), line) == lines,
{
    if line - 1 >= lines.len() {
        assert(inserted_lines(lines, line, content) =~= lines.push(content));
        assert(lines.push(content).remove(line - 1) =~= lines);
    } else {
        assert(lines.insert(line - 1, content).remove(line - 1) =~= lines);
    }
}

/// A write puts the content at the line's number, keeps the lines before it,
/// shifts the lines from it onwards by one, and pads with empty lines past the end.
pub proof fn law_write_places_line(lines: Seq<Seq<char>>, line: int, content: Seq<char>)
    requires
        line >= 1,
    ensures
        inserted_lines(lines, line, content).len() == (if line - 1 >= lines.len() {
            line
        } else {
            lines.len() + 1int
        }),
        inserted_lines(lines, line, content)[line - 1] == content,
        forall|i: int| 0 <= i < line - 1 && i < lines.len() ==> #[trigger] inserted_lines(lines, line, content)[i] == lines[i],
        forall|i: int| lines.len() <= i < line - 1 ==> #[trigger] inserted_lines(lines, line, content)[i] == Seq::<char>::empty(),
        forall|i: int| line - 1 <= i < lines.len() ==> #[trigger] inserted_lines(lines, line, content)[i + 1] == lines[i],
{
}

/// Lines that joining and splitting again give back: none holds a line feed,
/// none but the last ends with a carriage return, and the last is not empty.
pub open spec fn stable_lines(lines: Seq<Seq<char>>) -> bool {
    &&& forall|i: int, j: int| 0 <= i < lines.len() && 0 <= j < lines[i].len() ==> lines[i][j] != '\n'
    &&& forall|i: int| 0 <= i < lines.len() - 1 ==> !(lines[i].len() > 0 && #[trigger] lines[i].last() == '\r')
    &&& lines.len() > 0 ==> lines.last().len() > 0
}

proof fn lemma_split_lf_append(s: Seq<char>, t: Seq<char>)
    requires
        forall|j: int| 0 <= j < t.len() ==> t[j] != '\n',
    ensures
        split_lf(s + t) == split_lf(s).update(split_lf(s).len() - 1, split_lf(s).last() + t),
    decreases t.len(),
{
    lemma_split_lf_len(s);
    if t.len() == 0 {
        assert(s + t =~= s);
        assert(split_lf(s).last() + t =~= split_lf(s).last());
        assert(split_lf(s).update(split_lf(s).len() - 1, split_lf(s).last()) =~= split_lf(s));
    } else {
        lemma_split_lf_append(s, t.drop_last());
        assert((s + t).drop_last() =~= s + t.drop_last());
        assert((s + t).last() == t.last());
        lemma_split_lf_len(s + t.drop_last());
        assert(split_lf(s).last() + t =~= (split_lf(s).last() + t.drop_last()).push(t.last()));
        assert(split_lf(s + t) =~= split_lf(s).update(split_lf(s).len() - 1, split_lf(s).last() + t));
    }
}

proof fn lemma_split_join(lines: Seq<Seq<char>>)
    requires
        lines.len() > 0,
        forall|i: int, j: int| 0 <= i < lines.len() && 0 <= j < lines[i].len() ==> lines[i][j] != '\n',
    ensures
        split_lf(join_lines(lines)) == lines,
    decreases lines.len(),
{
    if lines.len() == 1 {
        assert(join_lines(lines) == lines[0]);
        lemma_split_lf_append(Seq::<char>::empty(), lines[0]);
        assert(Seq::<char>::empty() + lines[0] =~= lines[0]);
        assert(split_lf(Seq::<char>::empty()) =~= seq![Seq::<char>::empty()]);
        assert(Seq::<char>::empty() + lines[0] =~= lines[0]);
        assert(split_lf(lines[0]) =~= lines);
    } else {
        let init = lines.drop_last();
        lemma_split_join(init);
        let s = join_lines(init).push('\n');
        assert(join_lines(lines) == join_lines(init) + seq!['\n'] + lines.last());
        assert(join_lines(init) + seq!['\n'] =~= s);
        assert(s.drop_last() =~= join_lines(init));
        assert(split_lf(s) =~= init.push(Seq::<char>::empty()));
        assert forall|j: int| 0 <= j < lines.last().len() implies lines.last()[j] != '\n' by {
            assert(lines.last() == lines[lines.len() - 1]);
        }
        lemma_split_lf_append(s, lines.last());
        assert(Seq::<char>::empty() + lines.last() =~= lines.last());
        assert(split_lf(s + lines.last()) =~= lines);
    }
}

proof fn lemma_join_last(lines: Seq<Seq<char>>)
    requires
        lines.len() > 0,
        lines.last().len() > 0,
    ensures
        join_lines(lines).len() > 0,
        join_lines(lines).last() == lines.last().last(),
{
    if lines.len() == 1 {
    } else {
        assert(join_lines(lines) == join_lines(lines.drop_last()) + seq!['\n'] + lines.last());
    }
}

/// Joining lines by line feeds and reading the lines of the result gives them
/// back, for lines that survive the round trip.
pub proof fn law_lines_round_trip(lines: Seq<Seq<char>>)
    requires
        stable_lines(lines),
    ensures
        text_lines(join_lines(lines)) == lines,
{
    if lines.len() == 0 {
        assert(join_lines(lines) =~= Seq::<char>::empty());
        assert(text_lines(Seq::<char>::empty()) =~= lines);
    } else {
        lemma_split_join(lines);
        lemma_join_last(lines);
        let s = join_lines(lines);
        assert(s.last() != '\n') by {
            assert(lines.last() == lines[lines.len() - 1]);
            assert(lines.last()[lines.last().len() - 1] != '\n');
        }
        assert forall|j: int| 0 <= j < lines.len() - 1 implies strip_cr(lines[j]) == lines[j] by {}
        assert(text_lines(s) =~= lines);
    }
}

/// After a write, the lines of the new text are the old lines with the
/// content written, whenever those lines survive the round trip; in
/// particular the written line reads back as the content.
pub proof fn law_write_reads_back(text: Seq<char>, line: int, content: Seq<char>)
    requires
        line >= 1,
        stable_lines(inserted_lines(text_lines(text), line, content)),
    ensures
        text_lines(written_text(text, line, content)) == inserted_lines(text_lines(text), line, content),
        text_lines(written_text(text, line, content))[line - 1] == content,
{
    law_lines_round_trip(inserted_lines(text_lines(text), line, content));
    law_write_places_line(text_lines(text), line, content);
}

/// Joining the pieces between line feeds by line feeds gives the text again;
/// each piece holds no line feed, and only characters of the text.
proof fn lemma_join_split(s: Seq<char>)
    ensures
        join_lines(split_lf(s)) == s,
        forall|j: int, k: int|
            0 <= j < split_lf(s).len() && 0 <= k < split_lf(s)[j].len() ==> #[trigger] split_lf(s)[j][k] != '\n'
                && s.contains(split_lf(s)[j][k]),
    decreases s.len(),
{
    if s.len() == 0 {
        assert(split_lf(s) =~= seq![Seq::<char>::empty()]);
        assert(join_lines(seq![Seq::<char>::empty()]) == Seq::<char>::empty());
    } else {
        let init = s.drop_last();
        lemma_join_split(init);
        lemma_split_lf_len(init);
        let p = split_lf(init);
        let c = s.last();
        assert forall|i: int| 0 <= i < init.len() implies s.contains(#[trigger] init[i]) by {
            assert(s[i] == init[i]);
        }
        if c == '\n' {
            assert(split_lf(s) == p.push(Seq::<char>::empty()));
            assert(p.push(Seq::<char>::empty()).drop_last() =~= p);
            assert(join_lines(p.push(Seq::<char>::empty())) == join_with(p.push(Seq::<char>::empty()).drop_last(), seq!['\n']) + seq!['\n'] + p.push(Seq::<char>::empty()).last());
            assert(join_lines(p.push(Seq::<char>::empty())) == join_lines(p) + seq!['\n'] + Seq::<char>::empty());
            assert(s =~= init + seq!['\n'] + Seq::<char>::empty());
            assert forall|j: int, k: int|
                0 <= j < split_lf(s).len() && 0 <= k < split_lf(s)[j].len() implies #[trigger] split_lf(s)[j][k] != '\n'
                    && s.contains(split_lf(s)[j][k]) by {
                assert(split_lf(s)[j] == p[j]);
                assert(init.contains(p[j][k]));
            }
        } else {
            let q = p.update(p.len() - 1, p.last().push(c));
            assert(split_lf(s) == q);
            if p.len() == 1 {
                assert(join_lines(p) == p[0]);
                assert(join_lines(q) == q[0]);
                assert(q[0] =~= init.push(c));
            } else {
                assert(q.drop_last() =~= p.drop_last());
                assert(join_lines(p) == join_lines(p.drop_last()) + seq!['\n'] + p.last());
                assert(join_lines(q) == join_lines(q.drop_last()) + seq!['\n'] + q.last());
                assert(join_lines(q) =~= join_lines(p).push(c));
            }
            assert(s =~= init.push(c));
            assert forall|j: int, k: int|
                0 <= j < split_lf(s).len() && 0 <= k < split_lf(s)[j].len() implies #[trigger] split_lf(s)[j][k] != '\n'
                    && s.contains(split_lf(s)[j][k]) by {
                if j < p.len() - 1 || k < p[j].len() {
                    assert(split_lf(s)[j][k] == p[j][k]);
                    assert(init.contains(p[j][k]));
                } else {
                    assert(split_lf(s)[j][k] == c);
                    assert(s[s.len() - 1] == c);
                }
            }
        }
    }
}

/// A text with no carriage return that does not end with a line feed is its
/// lines joined by line feeds, and those lines are its pieces between line feeds.
proof fn lemma_plain_text_lines(text: Seq<char>)
    requires
        forall|i: int| 0 <= i < text.len() ==> text[i] != '\r',
        text.len() == 0 || text.last() != '\n',
    ensures
        text.len() > 0 ==> text_lines(text) == split_lf(text),
        join_lines(text_lines(text)) == text,
{
    lemma_join_split(text);
    if text.len() == 0 {
        assert(join_lines(text_lines(text)) =~= text);
    } else {
        let p = split_lf(text);
        assert forall|j: int| 0 <= j < p.len() - 1 implies strip_cr(#[trigger] p[j]) == p[j] by {
            if p[j].len() > 0 {
                assert(p[j][p[j].len() - 1] == p[j].last());
                assert(text.contains(p[j][p[j].len() - 1]));
            }
        }
        assert(text_lines(text) =~= p);
    }
}

/// For a text with no carriage return that does not end with a line feed,
/// deleting line `line` right after writing it there (with content holding
/// no line break) gives the text back.
pub proof fn law_delete_undoes_write_in_text(text: Seq<char>, line: int, content: Seq<char>)
    requires
        1 <= line <= text_lines(text).len() + 1,
        forall|i: int| 0 <= i < text.len() ==> text[i] != '\r',
        text.len() == 0 || text.last() != '\n',
        forall|i: int| 0 <= i < content.len() ==> content[i] != '\n' && content[i] != '\r',
    ensures
        deleted_text(written_text(text, line, content), line) == text,
{
    lemma_plain_text_lines(text);
    lemma_join_split(text);
    let lines = text_lines(text);
    let ins = inserted_lines(lines, line, content);
    if content.len() == 0 && line == lines.len() + 1 {
        assert(content =~= Seq::<char>::empty());
        assert(Seq::new((line - 1 - lines.len()) as nat, |i: int| Seq::<char>::empty()) =~= Seq::<Seq<char>>::empty());
        assert(ins =~= lines.push(Seq::<char>::empty()));
        if lines.len() == 0 {
            assert(join_lines(ins) == Seq::<char>::empty());
            assert(text_lines(Seq::<char>::empty()) =~= Seq::<Seq<char>>::empty());
            assert(deleted_lines(Seq::<Seq<char>>::empty(), line) =~= Seq::<Seq<char>>::empty());
        } else {
            let w = text + seq!['\n'];
            assert(ins.drop_last() =~= lines);
            assert(join_lines(ins) == join_with(ins.drop_last(), seq!['\n']) + seq!['\n'] + ins.last());
            assert(join_lines(ins) == join_lines(lines) + seq!['\n'] + Seq::<char>::empty());
            assert(join_lines(ins) =~= w);
            assert(w.drop_last() =~= text);
            assert(split_lf(w) == split_lf(text).push(Seq::<char>::empty()));
            assert forall|j: int| 0 <= j < split_lf(text).len() implies strip_cr(#[trigger] split_lf(w)[j]) == lines[j] by {
                assert(split_lf(w)[j] == lines[j]);
                if lines[j].len() > 0 {
                    assert(text.contains(lines[j][lines[j].len() - 1]));
                }
            }
            assert(text_lines(w) =~= lines);
        }
    } else {
        assert(stable_lines(ins)) by {
            assert forall|i: int, j: int| 0 <= i < ins.len() && 0 <= j < ins[i].len() implies ins[i][j] != '\n' && ins[i][j] != '\r' by {
                if line - 1 >= lines.len() {
                    if i < lines.len() {
                        assert(ins[i] == lines[i]);
                        assert(text.contains(lines[i][j]));
                    } else if i == ins.len() - 1 {
                        assert(ins[i] == content);
                    } else {
                        assert(ins[i] == Seq::<char>::empty());
                    }
                } else {
                    if i < line - 1 {
                        assert(ins[i] == lines[i]);
                        assert(text.contains(lines[i][j]));
                    } else if i == line - 1 {
                        assert(ins[i] == content);
                    } else {
                        assert(ins[i] == lines[i - 1]);
                        assert(text.contains(lines[i - 1][j]));
                    }
                }
            }
            if line - 1 < lines.len() {
                assert(ins.last() == lines.last());
                let p = split_lf(text);
                assert(join_lines(p).len() > 0);
                assert(p.last().len() > 0) by {
                    if p.last().len() == 0 {
                        if p.len() == 1 {
                            assert(join_lines(p) == p[0]);
                        } else {
                            assert(join_lines(p) == join_lines(p.drop_last()) + seq!['\n'] + p.last());
                            assert(join_lines(p).last() == '\n');
                        }
                    }
                }
            } else {
                assert(ins.last() == content);
            }
        }
        law_write_reads_back(text, line, content);
        law_delete_undoes_write(lines, line, content);
    }
}

/// The embedding providers a canon can be patched with.
#[derive(Debug, Clone, Copy, PartialEq, Eq, Structural)]
pub enum EmbeddingProviderKind {
    OpenAi,
    Ollama,
    FastEmbed,
    VoyageAi,
    Cohere,
    /// No embeddings.
    Null,
}

/// The provider a batch's recorded provider name stands for: `openai`,
/// `ollama`, `fastembed`, `voyageai` or `cohere`; any other name means none.
pub open spec fn provider_named(name: Seq<char>) -> EmbeddingProviderKind {
    if name == "openai"@ {
        EmbeddingProviderKind::OpenAi
    } else if name == "ollama"@ {
        EmbeddingProviderKind::Ollama
    } else if name == "fastembed"@ {
        EmbeddingProviderKind::FastEmbed
    } else if name == "voyageai"@ {
        EmbeddingProviderKind::VoyageAi
    } else if name == "cohere"@ {
        EmbeddingProviderKind::Cohere
    } else {
        EmbeddingProviderKind::Null
    }
}

/// The provider a recorded provider name stands for.
pub fn embedding_provider_kind(name: &str) -> (res: EmbeddingProviderKind)
    ensures
        res == provider_named(name@),
{
    if str_eq(name, "openai") {
        EmbeddingProviderKind::OpenAi
    } else if str_eq(name, "ollama") {
        EmbeddingProviderKind::Ollama
    } else if str_eq(name, "fastembed") {
        EmbeddingProviderKind::FastEmbed
    } else if str_eq(name, "voyageai") {
        EmbeddingProviderKind::VoyageAi
    } else if str_eq(name, "cohere") {
        EmbeddingProviderKind::Cohere
    } else {
        EmbeddingProviderKind::Null
    }
}

} // verus!
