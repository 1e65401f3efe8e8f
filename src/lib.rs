//! Chat-completion inference core: prompt templating, the decode session and
//! its loop over a language model, and metric-name prefixing.

pub mod decode;
pub mod external;
pub mod model;
pub mod template;
pub mod utils;
