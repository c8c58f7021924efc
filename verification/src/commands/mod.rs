pub mod edit;
pub mod find_expand;
pub mod ls_show;
