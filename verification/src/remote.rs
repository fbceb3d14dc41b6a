use vstd::prelude::*;
use vstd::string::StringExecFns;

use crate::errors::Error;
use crate::ids::valid_mod_value;
use crate::ids::PackageId;
use crate::registry::owner_view;
use crate::text::lines_of;
use crate::text::parse_lines;

verus! {

/// The archive's address on a repository:
/// `https://<repo>/mods/<author>/<name>/mod.tar.gz`.
pub fn mod_url(repo: &str, id: &PackageId) -> (r: String)
    ensures
        r@ == "https://"@ + repo@ + "/mods/"@ + id@.author + "/"@ + id@.name + "/mod.tar.gz"@,
{
    let mut out = String::from_str("https://");
    out.append(repo);
    out.append("/mods/");
    out.append(id.author.as_str());
    out.append("/");
    out.append(id.name.as_str());
    out.append("/mod.tar.gz");
    out
}

/// The dependency list's address on a repository:
/// `https://<repo>/mods/<author>/<name>/depends.txt`.
pub fn depends_url(repo: &str, id: &PackageId) -> (r: String)
    ensures
        r@ == "https://"@ + repo@ + "/mods/"@ + id@.author + "/"@ + id@.name + "/depends.txt"@,
{
    let mut out = String::from_str("https://");
    out.append(repo);
    out.append("/mods/");
    out.append(id.author.as_str());
    out.append("/");
    out.append(id.name.as_str());
    out.append("/depends.txt");
    out
}

/// Parses a newline-delimited dependency list: one identifier per line, each
/// validated; refused as soon as one line is malformed.
pub fn parse_depends(body: &str) -> (r: Result<Vec<PackageId>, Error>)
    ensures
        r is Ok <==> (forall|i: int|
            0 <= i < lines_of(body@).len() ==> valid_mod_value(#[trigger] lines_of(body@)[i])),
        r matches Ok(v) ==> v@.len() == lines_of(body@).len() && (forall|i: int|
            0 <= i < v@.len() ==> (#[trigger] v@[i])@ == owner_view(lines_of(body@)[i])),
        r is Err ==> r == Err::<Vec<PackageId>, Error>(Error::ConfigError),
{
    let lines = parse_lines(body);
    let mut out: Vec<PackageId> = Vec::new();
    let mut i: usize = 0;
    while i < lines.len()
        invariant
            i <= lines@.len(),
            crate::text::views_of(lines@) == lines_of(body@),
            out@.len() == i,
            forall|j: int| 0 <= j < i ==> valid_mod_value(#[trigger] lines_of(body@)[j]),
            forall|j: int| 0 <= j < i ==> (#[trigger] out@[j])@ == owner_view(lines_of(body@)[j]),
        decreases lines@.len() - i,
    {
        proof {
            assert(crate::text::views_of(lines@)[i as int] == lines@[i as int]@);
        }
        match PackageId::parse(lines[i].as_str()) {
            Ok(p) => {
                out.push(p);
            },
            Err(_) => {
                return Err(Error::ConfigError);
            },
        }
        i += 1;
    }
    proof {
        assert(lines@.len() == crate::text::views_of(lines@).len());
    }
    Ok(out)
}

} // verus!
