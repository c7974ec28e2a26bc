//! The themes bundled with the program.
use vstd::prelude::*;

verus! {

/// A bundled theme: page template, stylesheet, print stylesheet and configuration.
#[derive(Debug)]
pub struct EmbeddedTheme {
    pub template: String,
    pub style: String,
    pub print: String,
    pub config: String,
}

/// The bundled themes and shared assets.
pub struct ThemeCatalog {
    pub modern_tech: EmbeddedTheme,
    pub jp_standard: EmbeddedTheme,
    pub prism_css: String,
}

/// The bundled theme of the given name: `modern-tech` or `jp-standard`.
pub fn embedded_theme<'a>(name: &str, catalog: &'a ThemeCatalog) -> (r: Option<&'a EmbeddedTheme>)
    ensures
        name@ == "modern-tech"@ ==> r == Some(&catalog.modern_tech),
        name@ == "jp-standard"@ ==> r == Some(&catalog.jp_standard),
        name@ != "modern-tech"@ && name@ != "jp-standard"@ ==> r is None,
{
    proof {
        reveal_strlit("modern-tech");
        reveal_strlit("jp-standard");
        assert("modern-tech"@[0] != "jp-standard"@[0]);
    }
    if crate::theme::str_eq(name, "modern-tech") {
        Some(&catalog.modern_tech)
    } else if crate::theme::str_eq(name, "jp-standard") {
        Some(&catalog.jp_standard)
    } else {
        None
    }
}

} // verus!
