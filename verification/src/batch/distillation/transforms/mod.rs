pub mod strategy;
pub mod comments_ast;
pub mod debug_remover;
pub mod import_simplifier;
pub mod literals;
pub mod skeleton;
pub mod symbol_pruner;
