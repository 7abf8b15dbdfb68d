use vstd::prelude::*;
use vstd::string::StringExecFns;

use crate::error::CoreError;
use crate::error::CoreResult;
use crate::registry::RepoInfo;

verus! {

/// Replacement of every non-overlapping occurrence of `from` in `s` by `to`,
/// scanned left to right.
pub open spec fn spec_replace(s: Seq<char>, from: Seq<char>, to: Seq<char>) -> Seq<char>
    decreases s.len(),
    when from.len() > 0
{
    if s.len() < from.len() {
        s
    } else if s.subrange(0, from.len() as int) == from {
        to + spec_replace(s.skip(from.len() as int), from, to)
    } else {
        seq![s[0]] + spec_replace(s.skip(1), from, to)
    }
}

/// Relies on str::replace: every non-overlapping occurrence of the pattern,
/// found left to right, is replaced by the replacement string.
#[verifier::external_body]
fn replace_all(s: &str, from: &str, to: &str) -> (r: String)
    requires
        from@.len() > 0,
    ensures
        r@ == spec_replace(s@, from@, to@),
{
    s.replace(from, to)
}

/// The fixed sub-path beside an artifact where a package's richer descriptor
/// document is expected.
pub open spec fn descriptor_path(pkg_name: Seq<char>) -> Seq<char> {
    "src/"@ + pkg_name + "/packageInfo.json"@
}

/// Builds the descriptor sub-path for one package name.
fn descriptor_sub_path(pkg_name: &str) -> (r: String)
    ensures
        r@ == descriptor_path(pkg_name@),
{
    let s = "src/".to_owned();
    let s = s.concat(pkg_name);
    s.concat("/packageInfo.json")
}

impl RepoInfo {
    /// The URL where the richer descriptor of `pkg_name` is expected: the
    /// catalog entry's URL with the entry's file name replaced by the fixed
    /// descriptor sub-path.  An entry whose file name is empty names no
    /// spot to substitute, and its URL is returned unchanged.
    pub fn descriptor_url(&self, pkg_name: &str) -> (r: CoreResult<String>)
        requires
            self.wf(),
        ensures
            match r {
                Ok(u) => self@.contains_key(pkg_name@) && u@ == (
                    if self@[pkg_name@].file_name.len() > 0 {
                        spec_replace(
                            self@[pkg_name@].url,
                            self@[pkg_name@].file_name,
                            descriptor_path(pkg_name@),
                        )
                    } else {
                        self@[pkg_name@].url
                    }),
                Err(e) => !self@.contains_key(pkg_name@) && (e matches
                    CoreError::PackageNotFound(n) && n@ == pkg_name@),
            },
    {
        let package = match self.get_package(pkg_name) {
            Ok(p) => p,
            Err(e) => {
                return Err(e);
            },
        };
        if package.file_name.as_str().is_empty() {
            Ok(package.url.clone())
        } else {
            let sub = descriptor_sub_path(pkg_name);
            Ok(replace_all(package.url.as_str(), package.file_name.as_str(), sub.as_str()))
        }
    }

    /// The download plan for `pkg_name`: the URL to fetch and the local file
    /// name to write, straight from the catalog entry.
    pub fn download_plan(&self, pkg_name: &str) -> (r: CoreResult<(String, String)>)
        requires
            self.wf(),
        ensures
            match r {
                Ok(p) => self@.contains_key(pkg_name@) && p.0@ == self@[pkg_name@].url && p.1@
                    == self@[pkg_name@].file_name,
                Err(e) => !self@.contains_key(pkg_name@) && (e matches
                    CoreError::PackageNotFound(n) && n@ == pkg_name@),
            },
    {
        match self.get_package(pkg_name) {
            Ok(p) => Ok((p.url.clone(), p.file_name.clone())),
            Err(e) => Err(e),
        }
    }
}

/// Whether an HTTP status code lets an artifact download go on: every
/// non-success status is a network error.
pub fn check_download_status(status: u16, pkg_name: &str) -> (r: CoreResult<()>)
    ensures
        match r {
            Ok(_) => 200 <= status < 300,
            Err(e) => !(200 <= status < 300) && (e matches CoreError::NetworkError(m) && m@.len()
                > 0),
        },
{
    if 200 <= status && status < 300 {
        Ok(())
    } else {
        proof {
            reveal_strlit("Failed to fetch package '");
        }
        let m = "Failed to fetch package '".to_owned();
        let m = m.concat(pkg_name);
        Err(CoreError::NetworkError(m.concat("'")))
    }
}

/// Compare the declared content hash of an entry with the hash computed over
/// the downloaded bytes; any divergence is a `HashMismatch` carrying both.
pub fn verify_hash(expected: &str, actual: &str) -> (r: CoreResult<()>)
    ensures
        r is Ok <==> expected@ == actual@,
        match r {
            Ok(_) => expected@ == actual@,
            Err(e) => e matches CoreError::HashMismatch { expected: x, actual: y } && x@
                == expected@ && y@ == actual@,
        },
{
    if crate::registry::str_eq(expected, actual) {
        Ok(())
    } else {
        Err(
            CoreError::HashMismatch {
                expected: expected.to_owned(),
                actual: actual.to_owned(),
            },
        )
    }
}

} // verus!
