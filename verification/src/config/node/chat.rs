use vstd::prelude::*;

use regex::Regex;

verus! {

#[verifier::external_type_specification]
#[verifier::external_body]
pub struct ExRegex(Regex);

/// The chat rules of a node.
#[derive(Debug, Clone)]
pub struct ChatConfig {
    /// Chat messages that match one of these are ignored.
    pub ignored_regex: Vec<Regex>,
}

} // verus!
