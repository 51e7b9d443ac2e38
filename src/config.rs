//! The persistent settings and the list of known realms.
use std::path::PathBuf;
use vstd::prelude::*;
use vstd::utf8::encode_utf8;

verus! {

#[verifier::external_type_specification]
#[verifier::external_body]
pub struct ExPathBuf(PathBuf);

/// Relies on `PathBuf::clone`: the copy holds the same path.
pub assume_specification[ <PathBuf as Clone>::clone ](p: &PathBuf) -> (r: PathBuf)
    ensures
        r == *p,
;

/// Strict lexicographic order on byte strings, a proper prefix coming first.
pub open spec fn bytes_lt(a: Seq<u8>, b: Seq<u8>) -> bool
    decreases a.len(),
{
    if a.len() == 0 {
        b.len() > 0
    } else if b.len() == 0 {
        false
    } else if a[0] != b[0] {
        a[0] < b[0]
    } else {
        bytes_lt(a.drop_first(), b.drop_first())
    }
}

/// Whether the names are in ascending order of their UTF-8 bytes.
pub open spec fn names_sorted(names: Seq<String>) -> bool {
    forall|i: int, j: int|
        0 <= i < j < names.len() ==> !bytes_lt(encode_utf8(#[trigger] names[j]@), encode_utf8(#[trigger] names[i]@))
}

/// The texts of a list of names.
pub open spec fn name_texts(names: Seq<String>) -> Seq<Seq<char>> {
    names.map_values(|s: String| s@)
}

/// Relies on `slice::sort` for `String`: the same strings, rearranged in
/// ascending order of their bytes.
#[verifier::external_body]
fn sort_names(names: &mut Vec<String>)
    ensures
        name_texts(final(names)@).to_multiset() == name_texts(old(names)@).to_multiset(),
        names_sorted(final(names)@),
{
    names.sort();
}

/// Persistent settings: a default realm, a seed file, and the known realms.
#[derive(Debug)]
pub struct Config {
    pub realm: Option<String>,
    pub seed_file: Option<PathBuf>,
    pub realms: Vec<String>,
}

impl Default for Config {
    fn default() -> (c: Config)
        ensures
            c.realm is None,
            c.seed_file is None,
            c.realms@.len() == 0,
    {
        Config { realm: None, seed_file: None, realms: Vec::new() }
    }
}

impl Config {
    /// Adds a realm name unless it is already known; the list is then sorted.
    pub fn add_realm(&mut self, name: &str)
        ensures
            final(self).realm == old(self).realm,
            final(self).seed_file == old(self).seed_file,
            name_texts(old(self).realms@).contains(name@) ==> final(self).realms == old(self).realms,
            !name_texts(old(self).realms@).contains(name@) ==> {
                &&& name_texts(final(self).realms@).to_multiset() == name_texts(old(self).realms@).to_multiset().insert(
                    name@,
                )
                &&& names_sorted(final(self).realms@)
            },
    {
        let target = name.to_owned();
        let mut i: usize = 0;
        while i < self.realms.len()
            invariant
                i <= self.realms@.len(),
                target@ == name@,
                self.realms == old(self).realms,
                forall|j: int| 0 <= j < i ==> self.realms@[j]@ != name@,
            decreases self.realms@.len() - i,
        {
            if self.realms[i] == target {
                assert(name_texts(self.realms@)[i as int] == name@);
                return;
            }
            i += 1;
        }
        assert(!name_texts(old(self).realms@).contains(name@)) by {
            if name_texts(old(self).realms@).contains(name@) {
                let j = choose|j: int| 0 <= j < old(self).realms@.len() && name_texts(old(self).realms@)[j] == name@;
                assert(self.realms@[j]@ == name@);
            }
        }
        let ghost before = self.realms@;
        self.realms.push(target);
        assert(name_texts(self.realms@) =~= name_texts(before).push(name@));
        proof {
            name_texts(before).to_multiset_ensures();
        }
        sort_names(&mut self.realms);
    }

    /// Removes every occurrence of a realm name.
    pub fn remove_realm(&mut self, name: &str)
        ensures
            final(self).realm == old(self).realm,
            final(self).seed_file == old(self).seed_file,
            final(self).realms@ == old(self).realms@.filter(|r: String| r@ != name@),
    {
        let target = name.to_owned();
        let ghost pred = |r: String| r@ != name@;
        let mut kept: Vec<String> = Vec::new();
        let mut i: usize = 0;
        while i < self.realms.len()
            invariant
                i <= self.realms@.len(),
                target@ == name@,
                pred == (|r: String| r@ != name@),
                self.realms == old(self).realms,
                kept@ == self.realms@.subrange(0, i as int).filter(pred),
            decreases self.realms@.len() - i,
        {
            let ghost before = self.realms@.subrange(0, i as int);
            let ghost after = self.realms@.subrange(0, i + 1);
            assert(after.drop_last() =~= before);
            reveal(Seq::filter);
            if !(self.realms[i] == target) {
                kept.push(self.realms[i].clone());
            }
            i += 1;
        }
        assert(self.realms@.subrange(0, self.realms@.len() as int) =~= self.realms@);
        self.realms = kept;
    }
}

} // verus!
