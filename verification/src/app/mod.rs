//! Application control: key decoding, the policy for external tools and the
//! state machine that turns commands and background results into the next
//! state of the view.
pub mod command;
pub mod external;
pub mod model;
