//! Language-server capabilities per language.
use vstd::prelude::*;

verus! {

/// Whether a language server is available, configured, running, or failed, for a language.
#[derive(Debug, Clone)]
pub struct LanguageCapability {
    pub language: String,
    pub available: bool,
    pub configured: bool,
    pub active: bool,
    pub failed: bool,
}

/// The capability of a language before any server is known: every flag off.
pub open spec fn idle_capability(c: LanguageCapability, language: Seq<char>) -> bool {
    c.language@ == language && !c.available && !c.configured && !c.active && !c.failed
}

/// The capabilities before any language server is known: Rust and TypeScript, every flag off.
pub fn default_capabilities() -> (r: Vec<LanguageCapability>)
    ensures
        r@.len() == 2,
        idle_capability(r@[0], "rust"@),
        idle_capability(r@[1], "typescript"@),
{
    let mut v: Vec<LanguageCapability> = Vec::new();
    v.push(
        LanguageCapability {
            language: "rust".to_owned(),
            available: false,
            configured: false,
            active: false,
            failed: false,
        },
    );
    v.push(
        LanguageCapability {
            language: "typescript".to_owned(),
            available: false,
            configured: false,
            active: false,
            failed: false,
        },
    );
    v
}

} // verus!
