//! Naming and enumeration of the archive store: one archive per bundle,
//! named after its identifier with a fixed suffix.
use crate::compressor::{eq_ignore_ascii_case, same_ignoring_ascii_case};
use crate::id::{id_from_str, id_to_string, ulid_text, ulid_value};
use vstd::prelude::*;

verus! {

/// The durable collection of bundle archives under a root directory.
#[derive(Debug, Clone, PartialEq, Eq)]
pub struct BundleStorage {
    pub root: String,
}

/// Suffix of every archive file.
pub open spec fn archive_extension() -> Seq<char> {
    "launch"@
}

/// Name of the member inside an archive that holds the bundle's configuration.
pub open spec fn metadata_name() -> Seq<char> {
    "launch.config"@
}

/// File name under which the archive of `id` is stored.
pub open spec fn archive_file_name(id: u128) -> Seq<char> {
    ulid_text(id) + seq!['.'] + archive_extension()
}

/// Index of the last '.' in `s`, or -1.
pub open spec fn last_dot(s: Seq<char>) -> int
    decreases s.len(),
{
    if s.len() == 0 {
        -1
    } else if s.last() == '.' {
        s.len() - 1
    } else {
        last_dot(s.drop_last())
    }
}

/// The identifier an archive file name denotes: the extension after the last
/// dot (which must not lead the name) is the archive suffix in any case, and
/// the stem before it reads as an identifier.
pub open spec fn archive_id(name: Seq<char>) -> Option<u128> {
    let p = last_dot(name);
    if p > 0 && same_ignoring_ascii_case(name.subrange(p + 1, name.len() as int), archive_extension()) {
        ulid_value(name.subrange(0, p))
    } else {
        None
    }
}

proof fn lemma_last_dot(s: Seq<char>, p: int)
    requires
        -1 <= p < s.len(),
        p >= 0 ==> s[p] == '.',
        forall|q: int| p < q < s.len() ==> s[q] != '.',
    ensures
        last_dot(s) == p,
    decreases s.len(),
{
    if s.len() > 0 && s.last() != '.' {
        lemma_last_dot(s.drop_last(), p);
    }
}

fn find_last_dot(s: &str) -> (r: i64)
    requires
        s@.len() < 0x7fff_ffff_ffff_ffff,
    ensures
        r == last_dot(s@),
        -1 <= r < s@.len(),
{
    let n = s.unicode_len();
    let mut i: usize = n;
    while i > 0
        invariant
            i <= n == s@.len(),
            n < 0x7fff_ffff_ffff_ffff,
            forall|q: int| i <= q < n ==> s@[q] != '.',
        decreases i,
    {
        if s.get_char(i - 1) == '.' {
            proof {
                lemma_last_dot(s@, i - 1);
            }
            return (i - 1) as i64;
        }
        i -= 1;
    }
    proof {
        lemma_last_dot(s@, -1);
    }
    -1
}

impl BundleStorage {
    pub fn new(root: String) -> (r: Self)
        ensures
            r.root == root,
    {
        BundleStorage { root }
    }

    /// The file name of the archive of `id`; reading it back gives `id`.
    pub fn file_name(id: u128) -> (r: String)
        ensures
            r@ == archive_file_name(id),
            archive_id(r@) == Some(id),
    {
        let t = id_to_string(id);
        let r = t.concat(".launch");
        proof {
            reveal_strlit(".launch");
            reveal_strlit("launch");
            let name = r@;
            let p = t@.len() as int;
            assert(name =~= archive_file_name(id));
            assert forall|q: int| p < q < name.len() implies name[q] != '.' by {
                if q > p {
                    assert(name[q] == ".launch"@[q - p]);
                }
            }
            assert(name[p] == '.');
            lemma_last_dot(name, p);
            assert(name.subrange(p + 1, name.len() as int) =~= archive_extension());
            assert(name.subrange(0, p) =~= t@);
        }
        r
    }

    /// Where the archive of `id` is stored.
    pub fn bundle_path(&self, id: u128) -> (r: String)
        ensures
            r@ == self.root@ + seq!['/'] + archive_file_name(id),
    {
        let name = Self::file_name(id);
        proof {
            reveal_strlit("/");
        }
        self.root.clone().concat("/").concat(name.as_str())
    }

    /// The identifier that an archive file name denotes, if it is one.
    pub fn parse_file_name(name: &str) -> (r: Option<u128>)
        requires
            name@.len() < 0x7fff_ffff_ffff_ffff,
        ensures
            r == archive_id(name@),
    {
        let p = find_last_dot(name);
        if p <= 0 {
            return None;
        }
        let p = p as usize;
        let n = name.unicode_len();
        let ext = name.substring_char(p + 1, n);
        proof {
            reveal_strlit("launch");
        }
        if !eq_ignore_ascii_case(ext, "launch") {
            return None;
        }
        id_from_str(name.substring_char(0, p))
    }

    /// The identifiers of the archives in a directory listing of
    /// (file name, is a regular file) pairs, each once, in order of first
    /// appearance; names that end in the archive suffix but do not read as an
    /// identifier are set aside.
    pub fn enumerate(listing: &Vec<(String, bool)>) -> (r: (Vec<u128>, Vec<String>))
        requires
            forall|i: int| 0 <= i < listing@.len() ==> (#[trigger] listing@[i]).0@.len() < 0x7fff_ffff_ffff_ffff,
        ensures
            r.0@.no_duplicates(),
            forall|id: u128|
                r.0@.contains(id) <==> exists|i: int|
                    0 <= i < listing@.len() && (#[trigger] listing@[i]).1 && archive_id(listing@[i].0@)
                        == Some(id),
    {
        let mut ids: Vec<u128> = Vec::new();
        let mut skipped: Vec<String> = Vec::new();
        let mut i: usize = 0;
        while i < listing.len()
            invariant
                i <= listing@.len(),
                forall|j: int| 0 <= j < listing@.len() ==> (#[trigger] listing@[j]).0@.len() < 0x7fff_ffff_ffff_ffff,
                ids@.no_duplicates(),
                forall|id: u128|
                    ids@.contains(id) <==> exists|j: int|
                        0 <= j < i && (#[trigger] listing@[j]).1 && archive_id(listing@[j].0@)
                            == Some(id),
            decreases listing@.len() - i,
        {
            let ghost before = ids@;
            let (name, is_file) = (&listing[i].0, listing[i].1);
            if is_file {
                match Self::parse_file_name(name.as_str()) {
                    Some(id) => if !contains_id(&ids, id) {
                        ids.push(id);
                    },
                    None => {
                        let p = find_last_dot(name.as_str());
                        if p > 0 && p < 0x7fff_ffff_ffff_fff0 && eq_ignore_ascii_case(
                            name.as_str().substring_char((p + 1) as usize, name.as_str().unicode_len()),
                            "launch",
                        ) {
                            skipped.push(name.clone());
                        }
                    },
                }
            }
            proof {
                assert forall|id: u128|
                    ids@.contains(id) <==> exists|j: int|
                        0 <= j < i + 1 && (#[trigger] listing@[j]).1 && archive_id(listing@[j].0@)
                            == Some(id) by {
                    if ids@.contains(id) && !before.contains(id) && ids@.len() > before.len() {
                        assert(ids@.last() == id || before.contains(id)) by {
                            let k = choose|k: int| 0 <= k < ids@.len() && ids@[k] == id;
                            if k < before.len() {
                                assert(before[k] == id);
                            }
                        }
                    }
                    if before.contains(id) {
                        let k = choose|k: int| 0 <= k < before.len() && before[k] == id;
                        assert(ids@[k] == id);
                    }
                    if listing@[i as int].1 && archive_id(listing@[i as int].0@) == Some(id) && !before.contains(id) {
                        assert(ids@[ids@.len() - 1] == id);
                    }
                }
            }
            i += 1;
        }
        (ids, skipped)
    }

    /// An archive member holds the bundle configuration when its path ends
    /// in the metadata file name, as a whole path component.
    pub fn is_metadata_member(path: &str) -> (r: bool)
        ensures
            r == (path@ == metadata_name() || (path@.len() > metadata_name().len()
                && path@.subrange(path@.len() - metadata_name().len() - 1, path@.len() as int)
                == seq!['/'] + metadata_name())),
    {
        proof {
            reveal_strlit("launch.config");
            reveal_strlit("/launch.config");
            assert("/launch.config"@ =~= seq!['/'] + metadata_name());
        }
        let n = path.unicode_len();
        let m: usize = 13;
        if n == m {
            return eq_exact(path, "launch.config");
        }
        if n > m {
            return eq_exact(path.substring_char(n - m - 1, n), "/launch.config");
        }
        false
    }
}

fn contains_id(v: &Vec<u128>, id: u128) -> (r: bool)
    ensures
        r == v@.contains(id),
{
    let mut i: usize = 0;
    while i < v.len()
        invariant
            i <= v@.len(),
            forall|j: int| 0 <= j < i ==> v@[j] != id,
        decreases v@.len() - i,
    {
        if v[i] == id {
            assert(v@[i as int] == id);
            return true;
        }
        i += 1;
    }
    false
}

/// Exact equality of two texts.
fn eq_exact(a: &str, b: &str) -> (r: bool)
    ensures
        r == (a@ == b@),
{
    let n = a.unicode_len();
    if n != b.unicode_len() {
        return false;
    }
    let mut i: usize = 0;
    while i < n
        invariant
            n == a@.len() == b@.len(),
            i <= n,
            forall|j: int| 0 <= j < i ==> a@[j] == b@[j],
        decreases n - i,
    {
        if a.get_char(i) != b.get_char(i) {
            return false;
        }
        i += 1;
    }
    assert(a@ =~= b@);
    true
}

} // verus!
