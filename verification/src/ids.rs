use vstd::prelude::*;
use vstd::string::StrSliceExecFns;
use vstd::string::StringExecFns;

use crate::errors::Error;
use crate::text::lemma_split_at_first_sep;
use crate::text::lemma_split_pieces_sep_free;
use crate::text::split_on;
use crate::text::split_str;
use crate::text::views_of;

verus! {

/// A package identifier: two non-empty, separator-free segments, written
/// `author/name`.
#[derive(Debug, PartialEq, Eq)]
pub struct PackageId {
    pub author: String,
    pub name: String,
}

/// The mathematical value of a `PackageId`.
pub struct PidView {
    pub author: Seq<char>,
    pub name: Seq<char>,
}

impl View for PackageId {
    type V = PidView;

    open spec fn view(&self) -> PidView {
        PidView { author: self.author@, name: self.name@ }
    }
}

/// A well-formed identifier string: splitting at `/` yields exactly two
/// non-empty segments.
pub open spec fn valid_mod_value(s: Seq<char>) -> bool {
    &&& split_on(s, '/').len() == 2
    &&& split_on(s, '/')[0].len() > 0
    &&& split_on(s, '/')[1].len() > 0
}

/// Splits an `author/name` identifier string at every `/`, keeping empty
/// pieces.
pub fn split_mod_value(mod_value: &str) -> (r: Vec<String>)
    ensures
        views_of(r@) == split_on(mod_value@, '/'),
{
    split_str(mod_value, '/')
}

impl PackageId {
    /// Both segments are non-empty and free of the separator.
    pub open spec fn wf(self) -> bool {
        &&& self@.author.len() > 0
        &&& self@.name.len() > 0
        &&& !self@.author.contains('/')
        &&& !self@.name.contains('/')
    }

    /// The single validating constructor: accepts exactly the strings that
    /// split into two non-empty segments, and rejects every other string.
    pub fn parse(mod_value: &str) -> (r: Result<PackageId, Error>)
        ensures
            r is Ok <==> valid_mod_value(mod_value@),
            r matches Ok(p) ==> {
                &&& p@.author == split_on(mod_value@, '/')[0]
                &&& p@.name == split_on(mod_value@, '/')[1]
                &&& p.wf()
            },
            r is Err ==> r == Err::<PackageId, Error>(Error::ConfigError),
    {
        let mut parts = split_mod_value(mod_value);
        let ghost pieces = split_on(mod_value@, '/');
        proof {
            assert(parts@.len() == views_of(parts@).len());
        }
        if parts.len() != 2 {
            return Err(Error::ConfigError);
        }
        let ghost parts0 = parts@;
        let name = parts.pop().unwrap();
        let author = parts.pop().unwrap();
        proof {
            assert(name == parts0[1] && author == parts0[0]);
            assert(author@ == pieces[0]) by {
                assert(views_of(parts0)[0] == parts0[0]@);
            }
            assert(name@ == pieces[1]) by {
                assert(views_of(parts0)[1] == parts0[1]@);
            }
        }
        if author.as_str().unicode_len() == 0 || name.as_str().unicode_len() == 0 {
            return Err(Error::ConfigError);
        }
        proof {
            lemma_split_pieces_sep_free(mod_value@, '/');
        }
        Ok(PackageId { author, name })
    }

    /// The identifier written back as `author/name`.
    pub fn render(&self) -> (r: String)
        ensures
            r@ == self@.author + seq!['/'] + self@.name,
    {
        let mut out = self.author.clone();
        out.append("/");
        out.append(self.name.as_str());
        proof {
            reveal_strlit("/");
            assert("/"@ =~= seq!['/']);
        }
        out
    }

    /// A copy whose value equals this one's.
    pub fn duplicate(&self) -> (r: PackageId)
        ensures
            r@ == self@,
    {
        PackageId { author: self.author.clone(), name: self.name.clone() }
    }
}

/// True exactly when the two identifiers have equal segments.
pub fn pid_eq(a: &PackageId, b: &PackageId) -> (r: bool)
    ensures
        r == (a@ == b@),
{
    let r = a.author == b.author && a.name == b.name;
    r
}

/// The views of a vector of identifiers.
pub open spec fn pids_of(s: Seq<PackageId>) -> Seq<PidView> {
    s.map_values(|p: PackageId| p@)
}

/// True exactly when `x`'s value occurs among the identifiers of `v`.
pub fn contains_pid(v: &Vec<PackageId>, x: &PackageId) -> (r: bool)
    ensures
        r == pids_of(v@).contains(x@),
{
    let mut i: usize = 0;
    while i < v.len()
        invariant
            i <= v.len(),
            forall|j: int| 0 <= j < i ==> (#[trigger] v@[j])@ != x@,
        decreases v.len() - i,
    {
        if pid_eq(&v[i], x) {
            assert(pids_of(v@)[i as int] == x@);
            return true;
        }
        i += 1;
    }
    assert(forall|j: int| 0 <= j < v@.len() ==> pids_of(v@)[j] == (#[trigger] v@[j])@);
    false
}

/// Rendering a well-formed identifier and parsing the result gives the same
/// two segments back.
pub proof fn lemma_id_round_trip(author: Seq<char>, name: Seq<char>)
    requires
        author.len() > 0,
        name.len() > 0,
        !author.contains('/'),
        !name.contains('/'),
    ensures
        valid_mod_value(author + seq!['/'] + name),
        split_on(author + seq!['/'] + name, '/')[0] == author,
        split_on(author + seq!['/'] + name, '/')[1] == name,
{
    let s = author + seq!['/'] + name;
    let k = author.len() as int;
    assert(forall|j: int| 0 <= j < k ==> s[j] != '/') by {
        assert(forall|j: int| 0 <= j < k ==> s[j] == author[j]);
    }
    assert(s[k] == '/');
    lemma_split_at_first_sep(s, '/', k);
    assert(s.take(k) =~= author);
    assert(s.skip(k + 1) =~= name);
    assert(forall|j: int| 0 <= j < name.len() ==> name[j] != '/');
    lemma_split_at_first_sep(name, '/', name.len() as int);
    assert(split_on(s, '/') == seq![author] + seq![name]);
    assert((seq![author] + seq![name]).len() == 2);
    assert((seq![author] + seq![name])[0] == author);
    assert((seq![author] + seq![name])[1] == name);
}

} // verus!
