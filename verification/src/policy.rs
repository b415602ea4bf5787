//! The security policy that governs every defense layer of a run.

use vstd::prelude::*;

verus! {

/// Which defenses are active for a run.  Constructed once, then shared
/// read-only by the sanitizer and the output validator.
pub struct SecurityPolicy {
    /// Reject any JavaScript: script elements, handler attributes,
    /// script-indicative patterns, and published `.js` files.
    pub no_javascript: bool,
    /// Reject inline `style` attributes.
    pub no_inline_styles: bool,
    /// Reject references to external (absolute `http(s)://`) resources.
    pub no_external: bool,
    /// Maximum size in bytes accepted for a single input document.
    pub max_file_size: usize,
}

impl Default for SecurityPolicy {
    /// The strictest default: scripts and external resources are rejected,
    /// inline styles are tolerated, inputs are capped at 10 MiB.
    fn default() -> (p: Self)
        ensures
            p.no_javascript,
            !p.no_inline_styles,
            p.no_external,
            p.max_file_size == 10485760,
    {
        SecurityPolicy {
            no_javascript: true,
            no_inline_styles: false,
            no_external: true,
            max_file_size: 10485760,
        }
    }
}

} // verus!
