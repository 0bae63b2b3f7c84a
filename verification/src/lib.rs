//! A markdown-with-math rendering core: extraction of math spans behind
//! placeholder tokens, structural-markup rendering around them, and
//! resynthesis of the final fragment, together with the style and asset
//! helpers the surrounding tool needs.

pub mod config;
pub mod converter;
pub mod katex_assets;
pub mod renderer;
pub mod template;
pub mod textops;
