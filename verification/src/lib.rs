use vstd::prelude::*;

pub mod text;
pub mod paths;
pub mod formats;
pub mod langid;
pub mod validation;
pub mod config;
pub mod model;
pub mod order;
pub mod languages;
pub mod translate;
pub mod convert;
pub mod path_glob;
pub mod editor;
pub mod editor_input;
pub mod editor_view;
pub mod tolgee;
pub mod sync;
pub mod edit;
pub mod normalize;
pub mod check;
pub mod input_kind;
pub mod diff;
pub mod translate_options;

verus! {

} // verus!
