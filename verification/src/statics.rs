use vstd::prelude::*;
use vstd::string::*;

verus! {

/// Build facts shown by the status command: the target triple and the
/// package's metadata.
#[allow(non_snake_case)]
pub struct Statics {
    pub TARGET: String,
    pub CARGO_PKG_AUTHORS: &'static str,
    pub CARGO_PKG_DESCRIPTION: &'static str,
    pub CARGO_PKG_HOMEPAGE: &'static str,
    pub CARGO_PKG_NAME: &'static str,
    pub CARGO_PKG_VERSION: &'static str,
}

/// What `TARGET` reads when the environment does not name the target.
pub open spec fn missing_target_text() -> Seq<char> {
    "Unable to retrive target-triple from the environment"@
}

impl Statics {
    /// The facts from their sources: `target` is the `TARGET` variable of
    /// the environment, if it was set and readable.
    pub fn from_parts(
        target: Option<String>,
        authors: &'static str,
        description: &'static str,
        homepage: &'static str,
        name: &'static str,
        version: &'static str,
    ) -> (r: Statics)
        ensures
            r.TARGET@ == match target {
                Some(t) => t@,
                None => missing_target_text(),
            },
            r.CARGO_PKG_AUTHORS == authors,
            r.CARGO_PKG_DESCRIPTION == description,
            r.CARGO_PKG_HOMEPAGE == homepage,
            r.CARGO_PKG_NAME == name,
            r.CARGO_PKG_VERSION == version,
    {
        let t = match target {
            Some(t) => t,
            None => String::from_str("Unable to retrive target-triple from the environment"),
        };
        Statics {
            TARGET: t,
            CARGO_PKG_AUTHORS: authors,
            CARGO_PKG_DESCRIPTION: description,
            CARGO_PKG_HOMEPAGE: homepage,
            CARGO_PKG_NAME: name,
            CARGO_PKG_VERSION: version,
        }
    }
}

impl Statics {
    /// The `Infos` field of the status command: target, authors, project
    /// name and version.
    pub fn info_text(&self) -> (r: String)
        ensures
            r@ == "**Target**: "@ + self.TARGET@ + "\n**Authors**: "@ + self.CARGO_PKG_AUTHORS@
                + "\n**Project Name**: "@ + self.CARGO_PKG_NAME@ + "\n**Version**: "@ + self.CARGO_PKG_VERSION@,
    {
        let mut r = String::from_str("**Target**: ");
        r.append(self.TARGET.as_str());
        r.append("\n**Authors**: ");
        r.append(self.CARGO_PKG_AUTHORS);
        r.append("\n**Project Name**: ");
        r.append(self.CARGO_PKG_NAME);
        r.append("\n**Version**: ");
        r.append(self.CARGO_PKG_VERSION);
        r
    }
}

} // verus!
