//! The package record that flows through the whole pipeline, and its
//! cosmetic formatting for display.

use vstd::prelude::*;

use colored::Colorize;

verus! {

/// Mathematical model of a [`Package`]: byte sequences in place of vectors.
pub ghost struct PackageV {
    pub name: Seq<u8>,
    pub version: Seq<u8>,
    pub new_version: Option<Seq<u8>>,
}

impl PackageV {
    /// A record is well formed when its name is non-empty.
    pub open spec fn wf(self) -> bool {
        self.name.len() > 0
    }

    /// A record is outdated exactly when a latest version was resolved and it
    /// differs, byte for byte, from the installed one. No ordering of
    /// versions is implied.
    pub open spec fn is_outdated(self) -> bool {
        self.new_version matches Some(nv) && nv != self.version
    }
}

/// One globally installed package: its name, the installed version (bare,
/// without the `v` prefix), and the latest registry version once resolved.
#[derive(Debug)]
pub struct Package {
    pub name: Vec<u8>,
    pub version: Vec<u8>,
    pub new_version: Option<Vec<u8>>,
}

impl View for Package {
    type V = PackageV;

    open spec fn view(&self) -> PackageV {
        PackageV {
            name: self.name@,
            version: self.version@,
            new_version: match self.new_version {
                Some(v) => Some(v@),
                None => None,
            },
        }
    }
}

/// Relies on `colored::Colorize::bright_red` for `&str`: it styles the text
/// bright red when coloring is enabled and leaves it unchanged otherwise. In
/// both cases escape-free ASCII input reappears contiguously in the result.
#[verifier::external_body]
fn paint_bright_red(text: &[u8]) -> (r: Vec<u8>)
    ensures
        crate::bytes::is_plain_ascii(text@) ==> crate::bytes::appears_contiguously(text@, r@),
{
    let s = String::from_utf8_lossy(text).into_owned();
    s.bright_red().to_string().into_bytes()
}

/// Relies on `colored::Colorize::bright_green` for `&str`: it styles the text
/// bright green when coloring is enabled and leaves it unchanged otherwise.
/// In both cases escape-free ASCII input reappears contiguously in the result.
#[verifier::external_body]
fn paint_bright_green(text: &[u8]) -> (r: Vec<u8>)
    ensures
        crate::bytes::is_plain_ascii(text@) ==> crate::bytes::appears_contiguously(text@, r@),
{
    let s = String::from_utf8_lossy(text).into_owned();
    s.bright_green().to_string().into_bytes()
}

/// `version` with the display prefix `v` put back in front.
fn prefixed_version(version: &Vec<u8>) -> (r: Vec<u8>)
    ensures
        r@ == seq![118u8] + version@,
{
    let mut r: Vec<u8> = Vec::new();
    r.push(118u8);
    let mut tail = vstd::slice::slice_to_vec(version.as_slice());
    r.append(&mut tail);
    proof {
        assert(r@ =~= seq![118u8] + version@);
    }
    r
}

impl Package {
    /// An independent copy of the record, field for field.
    pub fn duplicate(&self) -> (r: Self)
        ensures
            r@ == self@,
    {
        let name = vstd::slice::slice_to_vec(self.name.as_slice());
        let version = vstd::slice::slice_to_vec(self.version.as_slice());
        let new_version = match &self.new_version {
            Some(v) => Some(vstd::slice::slice_to_vec(v.as_slice())),
            None => None,
        };
        Self { name, version, new_version }
    }

    /// Copy of the record with both versions re-prefixed with `v` and
    /// color-styled for display. The name is carried over unchanged, and the
    /// prefixed version texts reappear inside the styled fields; the styling
    /// around them is the rendering collaborator's business and is not
    /// pinned down here.
    pub fn to_formatted(&self) -> (r: Self)
        requires
            self@.new_version is Some,
        ensures
            r@.name == self@.name,
            r@.new_version is Some,
            crate::bytes::is_plain_ascii(seq![118u8] + self@.version)
                ==> crate::bytes::appears_contiguously(seq![118u8] + self@.version, r@.version),
            self@.new_version matches Some(nv) ==> (r@.new_version matches Some(fv) && (
            crate::bytes::is_plain_ascii(seq![118u8] + nv)
                ==> crate::bytes::appears_contiguously(seq![118u8] + nv, fv))),
    {
        let name = vstd::slice::slice_to_vec(self.name.as_slice());
        let old_version = paint_bright_red(prefixed_version(&self.version).as_slice());
        let new_version = match &self.new_version {
            Some(nv) => paint_bright_green(prefixed_version(nv).as_slice()),
            None => vstd::pervasive::unreached(),
        };
        Self { name, version: old_version, new_version: Some(new_version) }
    }
}

} // verus!
