//! The plugin-repository parser surface: the capability traits a repository
//! backend consumes, and the Bukkit HTML parser's computational core —
//! recovering version codes from release titles and mapping Minecraft
//! versions to Bukkit's filterable version codes.
//!
//! Fetching pages and walking their markup belongs to the surrounding
//! program; everything here computes on plain values.

use vstd::prelude::*;
use std::collections::HashMap;
use crate::extract::{extract, spec_extract, ExtractOutcome, ExtractionError};
use crate::text::{dec_str, str_eq, u32_to_string};
use crate::version::VersionTuple;

verus! {

/// The errors of the parser surface.
#[derive(Clone, PartialEq, Eq, Debug)]
pub enum ErrorKind {
    /// The repository answered with a bad status code; carries the code.
    RequestFailed(u16),
    /// The requested server version is not known to the implemented plugin
    /// website; carries the offending version code.
    ServerVersionNotFound(String),
    /// The version format is unknown and could not be parsed.
    BadVersioningFormat,
}

impl ErrorKind {
    /// The human-readable description of the error.
    pub fn message(&self) -> (r: String)
        ensures
            match *self {
                ErrorKind::RequestFailed(s) =>
                    r@ == "request failed with code "@ + dec_str(s as nat),
                ErrorKind::ServerVersionNotFound(v) =>
                    r@ == "a plugin for server version "@ + v@ + " not found"@,
                ErrorKind::BadVersioningFormat =>
                    r@ == "plugin has a version format we cannot handle"@,
            },
    {
        match self {
            ErrorKind::RequestFailed(s) => {
                let mut m = "request failed with code ".to_owned();
                let code = u32_to_string(*s as u32);
                m.append(code.as_str());
                m
            }
            ErrorKind::ServerVersionNotFound(v) => {
                let mut m = "a plugin for server version ".to_owned();
                m.append(v.as_str());
                m.append(" not found");
                m
            }
            ErrorKind::BadVersioningFormat => {
                "plugin has a version format we cannot handle".to_owned()
            }
        }
    }
}

/// Searching a repository for plugins by keyword.
pub trait PluginSearchable {
    /// Searches for a plugin keyword and returns a map of plugin names to
    /// install page URLs.
    fn search(&self, query: &str) -> HashMap<String, String>;
}

/// Listing and fetching a package's releases from a repository.
pub trait PluginFetchable {
    /// Fetches a download link for a specific package name and version
    /// code. `None` when no release carries that version.
    fn fetch(&self, package_name: &str, version_code: &str)
        -> Result<Option<String>, ErrorKind>;

    /// The newest release of the package, as a version code and link pair.
    fn find_newest_version(&self, package_name: &str)
        -> Result<Option<(String, String)>, ErrorKind>;

    /// All releases of the package: parallel lists of version codes and
    /// download links, in the site's newest-first order. `None` when the
    /// package is not found.
    fn enumerate_versions(&self, package_name: &str)
        -> Result<Option<(Vec<String>, Vec<String>)>, ErrorKind>;
}

/// The computational core of the Bukkit repository parser.
pub struct BukkitHTMLPluginParser {
    /// A URL for the search page, `{}` standing where the query goes.
    pub search_url: &'static str,
    /// A CSS selector for the search results container.
    pub list_selector: &'static str,
    /// A selector for each item's name and link.
    pub item_selector: &'static str,
    /// The Minecraft server version releases are filtered by.
    pub minecraft_version: String,
}

/// Bukkit's filterable version code for a Minecraft server version: an odd
/// fixed mapping the site uses in its listing URLs.
pub open spec fn spec_mc_code(v: Seq<char>) -> Option<Seq<char>> {
    if v == "1.12"@ {
        Some("2020709689:6588"@)
    } else if v == "1.11"@ {
        Some("2020709689:630"@)
    } else if v == "1.10"@ {
        Some("2020709689:591"@)
    } else if v == "1.9"@ {
        Some("2020709689:585"@)
    } else if v == "1.8.1"@ {
        Some("2020709689:532"@)
    } else if v == "1.8"@ {
        Some("2020709689:531"@)
    } else if v == "CB 1.7.9-R0.2"@ {
        Some("2020709689:490"@)
    } else if v == "CB 1.7.9-R0.1"@ {
        Some("2020709689:473"@)
    } else if v == "CB 1.7.2-R0.3"@ {
        Some("2020709689:403"@)
    } else if v == "1.7.4"@ {
        Some("2020709689:6391"@)
    } else {
        None
    }
}

impl BukkitHTMLPluginParser {
    /// Returns a new instance of the HTML-enabled plugin parser.
    pub fn new(
        search_url: &'static str,
        list_selector: &'static str,
        item_selector: &'static str,
        minecraft_version: String,
    ) -> (r: Self)
        ensures
            r.search_url == search_url,
            r.list_selector == list_selector,
            r.item_selector == item_selector,
            r.minecraft_version == minecraft_version,
    {
        BukkitHTMLPluginParser { search_url, list_selector, item_selector, minecraft_version }
    }

    /// Recovers one canonical version code per release title, rendered as
    /// dot-joined strings in title order.
    ///
    /// Titles can bury the release's own version among other numbers, such
    /// as compatible Minecraft versions, so when titles carry several
    /// version-like runs the column that varies most across releases is
    /// taken for the real one.
    pub fn extract_version_numbers(version_list: Vec<String>) -> (r: Result<
        Vec<String>,
        ExtractionError,
    >)
        ensures
            ({
                let out = spec_extract(version_list@.map_values(|l: String| l@));
                match r {
                    Ok(ss) => out matches ExtractOutcome::Versions(vs)
                        && ss@.map_values(|s: String| s@)
                            == vs.map_values(|t: VersionTuple| t.canonical()),
                    Err(e) => match e {
                        ExtractionError::UnparseableLabel(l) =>
                            out == ExtractOutcome::Unparseable(l@),
                        ExtractionError::InconsistentColumns =>
                            out == ExtractOutcome::Inconsistent,
                    },
                }
            }),
    {
        match extract(&version_list) {
            Ok(vs) => {
                let mut ss: Vec<String> = Vec::new();
                let mut i: usize = 0;
                while i < vs.len()
                    invariant
                        i <= vs@.len(),
                        ss@.len() == i,
                        forall|k: int| 0 <= k < i
                            ==> (#[trigger] ss@[k])@ == vs@[k].canonical(),
                    decreases vs@.len() - i,
                {
                    ss.push(vs[i].stringify());
                    i = i + 1;
                }
                assert(ss@.map_values(|s: String| s@)
                    =~= vs@.map_values(|t: VersionTuple| t.canonical()));
                Ok(ss)
            }
            Err(e) => Err(e),
        }
    }

    /// Renders a version tuple dot-joined, with an optional beta suffix.
    pub fn stringify_version_tuple(
        tup: (u32, u32, Option<u32>, Option<u32>),
        beta: Option<String>,
    ) -> (r: String)
        ensures
            r@ == (VersionTuple { major: tup.0, minor: tup.1, patch: tup.2, build: tup.3 })
                .canonical()
                + (match beta {
                    Some(b) => seq!['b'] + b@,
                    None => Seq::<char>::empty(),
                }),
    {
        let t = VersionTuple { major: tup.0, minor: tup.1, patch: tup.2, build: tup.3 };
        let mut s = t.stringify();
        if let Some(b) = beta {
            s.append("b");
            s.append(b.as_str());
        }
        proof {
            reveal_strlit("b");
        }
        assert(s@ =~= (VersionTuple { major: tup.0, minor: tup.1, patch: tup.2, build: tup.3 })
            .canonical()
            + (match beta {
                Some(b) => seq!['b'] + b@,
                None => Seq::<char>::empty(),
            }));
        s
    }

    /// Bukkit's filterable code for this parser's Minecraft version, or
    /// `ServerVersionNotFound` when the site defines none for it.
    pub fn bukkit_mc_version_code(&self) -> (r: Result<String, ErrorKind>)
        ensures
            match r {
                Ok(code) => spec_mc_code(self.minecraft_version@) == Some(code@),
                Err(e) => spec_mc_code(self.minecraft_version@) is None && match e {
                    ErrorKind::ServerVersionNotFound(v) => v@ == self.minecraft_version@,
                    _ => false,
                },
            },
    {
        let mv = self.minecraft_version.as_str();
        if str_eq(mv, "1.12") {
            Ok("2020709689:6588".to_owned())
        } else if str_eq(mv, "1.11") {
            Ok("2020709689:630".to_owned())
        } else if str_eq(mv, "1.10") {
            Ok("2020709689:591".to_owned())
        } else if str_eq(mv, "1.9") {
            Ok("2020709689:585".to_owned())
        } else if str_eq(mv, "1.8.1") {
            Ok("2020709689:532".to_owned())
        } else if str_eq(mv, "1.8") {
            Ok("2020709689:531".to_owned())
        } else if str_eq(mv, "CB 1.7.9-R0.2") {
            Ok("2020709689:490".to_owned())
        } else if str_eq(mv, "CB 1.7.9-R0.1") {
            Ok("2020709689:473".to_owned())
        } else if str_eq(mv, "CB 1.7.2-R0.3") {
            Ok("2020709689:403".to_owned())
        } else if str_eq(mv, "1.7.4") {
            Ok("2020709689:6391".to_owned())
        } else {
            Err(ErrorKind::ServerVersionNotFound(self.minecraft_version.clone()))
        }
    }
}

} // verus!
