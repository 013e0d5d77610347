//! Document identifiers as the protocol hands them over: a scheme and a
//! path. Parsing an identifier string is the url crate's work; the
//! library's logic reads only these two plain values.

use vstd::prelude::*;

verus! {

/// A parsed document identifier.
pub struct Uri {
    pub scheme: String,
    pub path: String,
}

/// Ghost counterpart of `Uri`.
pub struct UriV {
    pub scheme: Seq<char>,
    pub path: Seq<char>,
}

impl View for Uri {
    type V = UriV;

    open spec fn view(&self) -> UriV {
        UriV { scheme: self.scheme@, path: self.path@ }
    }
}

impl Uri {
    /// A copy, equal to the original in view.
    pub fn duplicate(&self) -> (r: Uri)
        ensures
            r@ == self@,
    {
        Uri { scheme: self.scheme.clone(), path: self.path.clone() }
    }

    /// Whether this identifier names a local file.
    pub fn is_file_scheme(&self) -> (r: bool)
        ensures
            r == (self@.scheme == "file"@),
    {
        self.scheme == "file".to_owned()
    }
}

/// Whether the string is a well-formed identifier.
pub uninterp spec fn uri_parses(s: Seq<char>) -> bool;

/// The scheme of a well-formed identifier string.
pub uninterp spec fn uri_scheme_of(s: Seq<char>) -> Seq<char>;

/// The path of a well-formed identifier string.
pub uninterp spec fn uri_path_of(s: Seq<char>) -> Seq<char>;

/// Relies on url's `Url::parse`, `Url::scheme` and `Url::path`: whether
/// a string parses, and what its scheme and path are, depend on the
/// string alone.
#[verifier::external_body]
pub(crate) fn parse_uri(s: &str) -> (r: Option<Uri>)
    ensures
        r is Some <==> uri_parses(s@),
        r matches Some(u) ==> u.scheme@ == uri_scheme_of(s@) && u.path@ == uri_path_of(s@),
{
    match url::Url::parse(s) {
        Ok(u) => {
            let scheme = u.scheme().to_owned();
            let path = u.path().to_owned();
            Some(Uri { scheme, path })
        },
        Err(_) => None,
    }
}

} // verus!
