//! Email HTML transformation pipeline.
use vstd::prelude::*;

pub mod error;
pub mod html;
pub mod pipeline;
pub mod rewrite;
pub mod text;
pub mod transformers;

pub use error::Error;
pub use pipeline::{Pipeline, PipelineResult};
pub use transformers::inline_css::InlineCssConfig;
pub use transformers::tailwind::email_config as tailwind_email_config;

verus! {
}
