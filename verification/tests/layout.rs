use std::path::{Component, Path, PathBuf};
use steampipe::batch::distillation::layout::{build_output_path, PathPart};

fn parts(p: &Path) -> Vec<PathPart> {
    p.components()
        .map(|c| match c {
            Component::RootDir => PathPart::Root,
            Component::CurDir => PathPart::Here,
            Component::ParentDir => PathPart::Up,
            Component::Normal(n) => PathPart::Name(n.to_string_lossy().to_string()),
            Component::Prefix(p) => PathPart::Name(p.as_os_str().to_string_lossy().to_string()),
        })
        .collect()
}

fn path_of(ps: &[PathPart]) -> PathBuf {
    let mut out = PathBuf::new();
    for p in ps {
        match p {
            PathPart::Root => out.push("/"),
            PathPart::Here => out.push("."),
            PathPart::Up => out.push(".."),
            PathPart::Name(n) => out.push(n),
        }
    }
    out
}

/// The same placement done directly with `std::path`, on paths taken as canonical.
fn by_std(file: &Path, base: &Path, base_is_dir: bool, out_root: &Path, distilled: bool) -> PathBuf {
    let base_name = base
        .components()
        .next_back()
        .and_then(|c| match c {
            Component::Normal(n) => Some(n.to_string_lossy().to_string()),
            _ => None,
        })
        .unwrap_or_else(|| "input".to_string());
    let relative = file.strip_prefix(base).unwrap_or(file);
    let mut clean = relative;
    if relative.starts_with(&base_name) {
        if let Ok(s) = relative.strip_prefix(&base_name) {
            clean = s;
        }
    }
    if clean.is_absolute() {
        if let Ok(s) = clean.strip_prefix("/") {
            clean = s;
        }
    }
    let mut out = if base_is_dir {
        out_root.join(&base_name).join(clean)
    } else {
        out_root.join(file.file_name().unwrap_or(file.as_os_str()))
    };
    if distilled {
        let name = out.file_name().unwrap().to_string_lossy().to_string();
        out.set_file_name(format!("{}.dstl", name));
    }
    out
}

fn check(file: &str, base: &str, is_dir: bool, out_root: &str, distilled: bool) -> PathBuf {
    let (f, b, o) = (Path::new(file), Path::new(base), Path::new(out_root));
    let got = build_output_path(&parts(f), &parts(b), is_dir, &parts(o), distilled).expect("a file name");
    let got = path_of(&got);
    assert_eq!(got, by_std(f, b, is_dir, o, distilled), "{} under {}", file, base);
    got
}

#[test]
fn output_paths_keep_the_project_layout() {
    assert_eq!(check("/home/u/proj/src/main.rs", "/home/u/proj", true, "/out", true), Path::new("/out/proj/src/main.rs.dstl"));
    assert_eq!(check("/home/u/proj/src/main.rs", "/home/u/proj", true, "/out", false), Path::new("/out/proj/src/main.rs"));
    assert_eq!(check("/x/proj/a.rs", "/x/proj/a.rs", false, "layers/L0", true), Path::new("layers/L0/a.rs.dstl"));
}

#[test]
fn output_paths_are_not_nested_twice() {
    assert_eq!(check("proj/a.rs", "/x/proj", true, "/out", false), Path::new("/out/proj/a.rs"));
    assert_eq!(check("/elsewhere/b.rs", "/x/proj", true, "/out", true), Path::new("/out/proj/elsewhere/b.rs.dstl"));
    assert_eq!(check("./c.rs", "/x/proj", true, "/out", false), Path::new("/out/proj/c.rs"));
    assert_eq!(check("/x/proj", "/x/proj", true, "/out", true), Path::new("/out/proj.dstl"));
    assert_eq!(check("/", "/", true, "", false), Path::new("input"));
    assert_eq!(check("/a/b", "/", false, "o", false), Path::new("o/b"));
}

#[test]
fn a_distilled_copy_needs_a_file_name() {
    assert!(build_output_path(&parts(Path::new("..")), &parts(Path::new("/p")), false, &[], true).is_none());
    let kept = build_output_path(&parts(Path::new("..")), &parts(Path::new("/p")), false, &parts(Path::new("o")), false)
        .expect("no name is needed");
    assert_eq!(path_of(&kept), Path::new("o/.."));
}
