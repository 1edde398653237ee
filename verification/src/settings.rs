//! Process configuration carried by the router.
use vstd::prelude::*;
use crate::strmap::StrMap;

verus! {

#[derive(Clone, Debug)]
pub struct TemplateSettings {
    pub dir: String,
    pub debug: bool,
}

#[derive(Clone, Debug)]
pub struct Settings {
    pub debug: bool,
    pub host: String,
    pub port: u16,
    pub ws_port: u16,
    pub template: TemplateSettings,
    /// Any further settings, kept as plain name-to-value text.
    pub other: StrMap,
}

} // verus!
