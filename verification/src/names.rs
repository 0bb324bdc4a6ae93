//! Sets of entry names.

use crate::lines::after_first_line;
use crate::lines::first_line;
use crate::lines::lemma_line_end;
use crate::lines::lines;
use crate::lines::LineReader;
use crate::text::trim;
use crate::text::trimmed;
use std::collections::HashMap;
use vstd::prelude::*;
use vstd::slice::slice_to_vec;

verus! {

broadcast use vstd::std_specs::hash::group_hash_axioms;

const FNV_OFFSET: u64 = 0xcbf2_9ce4_8422_2325;

const FNV_PRIME: u64 = 0x0000_0100_0000_01b3;

/// The 64-bit FNV-1a hash of `name`, by which a name finds its bucket.
pub closed spec fn name_hash(name: Seq<u8>) -> u64
    decreases name.len(),
{
    if name.len() == 0 {
        FNV_OFFSET
    } else {
        (name_hash(name.drop_last()) ^ (name.last() as u64)).wrapping_mul(FNV_PRIME)
    }
}

/// Whether one of the names in `bucket` is `name`.
pub open spec fn bucket_holds(bucket: Seq<Vec<u8>>, name: Seq<u8>) -> bool {
    exists|j: int| 0 <= j < bucket.len() && (#[trigger] bucket[j])@ == name
}

fn hash_name(name: &[u8]) -> (h: u64)
    ensures
        h == name_hash(name@),
{
    let mut h: u64 = FNV_OFFSET;
    let mut i: usize = 0;
    while i < name.len()
        invariant
            i <= name.len(),
            h == name_hash(name@.take(i as int)),
        decreases name.len() - i,
    {
        h = (h ^ (name[i] as u64)).wrapping_mul(FNV_PRIME);
        i += 1;
        assert(name@.take(i as int).drop_last() =~= name@.take(i - 1));
    }
    assert(name@.take(i as int) =~= name@);
    h
}

/// Tells whether two byte strings are equal.
pub fn bytes_equal(a: &[u8], b: &[u8]) -> (r: bool)
    ensures
        r == (a@ == b@),
{
    if a.len() != b.len() {
        return false;
    }
    let mut i: usize = 0;
    while i < a.len()
        invariant
            i <= a.len(),
            a.len() == b.len(),
            a@.take(i as int) == b@.take(i as int),
        decreases a.len() - i,
    {
        if a[i] != b[i] {
            return false;
        }
        i += 1;
        assert(a@.take(i as int) =~= a@.take(i - 1).push(a@[i - 1]));
        assert(b@.take(i as int) =~= b@.take(i - 1).push(b@[i - 1]));
    }
    assert(a@.take(i as int) =~= a@);
    assert(b@.take(i as int) =~= b@);
    true
}

fn bucket_has(bucket: &Vec<Vec<u8>>, name: &[u8]) -> (r: bool)
    ensures
        r == bucket_holds(bucket@, name@),
{
    let mut j: usize = 0;
    while j < bucket.len()
        invariant
            j <= bucket.len(),
            forall|k: int| 0 <= k < j ==> (#[trigger] bucket@[k])@ != name@,
        decreases bucket.len() - j,
    {
        if bytes_equal(bucket[j].as_slice(), name) {
            return true;
        }
        j += 1;
    }
    false
}

/// What each of `names` stands for.
pub open spec fn name_views(names: Seq<Vec<u8>>) -> Seq<Seq<u8>> {
    Seq::new(names.len(), |i: int| names[i]@)
}

/// A finite set of entry names with a membership test in expected constant
/// time. Names are byte strings and are compared byte for byte.
///
/// The set keeps its names twice: in buckets by hash, for the membership
/// test, and in a list without repeats in the order in which they came,
/// for counting and walking. `well_formed` says that the two agree; every
/// set made by this module is well formed.
#[derive(Debug)]
pub struct NameSet {
    names: Vec<Vec<u8>>,
    buckets: HashMap<u64, Vec<Vec<u8>>>,
}

impl View for NameSet {
    type V = Set<Seq<u8>>;

    closed spec fn view(&self) -> Set<Seq<u8>> {
        Set::new(
            |n: Seq<u8>|
                self.buckets@.contains_key(name_hash(n)) && bucket_holds(
                    self.buckets@[name_hash(n)]@,
                    n,
                ),
        )
    }
}

impl NameSet {
    /// Whether the list of names holds each name of the set once and
    /// nothing else.
    pub closed spec fn well_formed(&self) -> bool {
        &&& name_views(self.names@).no_duplicates()
        &&& name_views(self.names@).to_set() == self@
    }

    /// The empty set.
    pub fn new() -> (set: Self)
        ensures
            set@ == Set::<Seq<u8>>::empty(),
            set.well_formed(),
    {
        let set = NameSet { names: Vec::new(), buckets: HashMap::new() };
        assert(set@ =~= Set::<Seq<u8>>::empty());
        assert(name_views(set.names@) =~= Seq::<Seq<u8>>::empty());
        assert(name_views(set.names@).to_set() =~= set@);
        set
    }

    /// The number of names in the set.
    pub fn len(&self) -> (n: usize)
        requires
            self.well_formed(),
        ensures
            self@.finite(),
            n == self@.len(),
    {
        proof {
            name_views(self.names@).unique_seq_to_set();
        }
        self.names.len()
    }

    /// Whether `name` is in the set.
    pub fn contains(&self, name: &[u8]) -> (r: bool)
        ensures
            r == self@.contains(name@),
    {
        let k = hash_name(name);
        match self.buckets.get(&k) {
            Some(bucket) => bucket_has(bucket, name),
            None => false,
        }
    }

    /// Adds `name` to the set. Returns whether it was new.
    pub fn insert(&mut self, name: &[u8]) -> (fresh: bool)
        ensures
            final(self)@ == old(self)@.insert(name@),
            fresh == !old(self)@.contains(name@),
            old(self).well_formed() ==> final(self).well_formed(),
    {
        let k = hash_name(name);
        let ghost old_views = name_views(self.names@);
        let mut bucket = match self.buckets.remove(&k) {
            Some(bucket) => bucket,
            None => Vec::new(),
        };
        let ghost before = bucket@;
        let fresh = !bucket_has(&bucket, name);
        if fresh {
            bucket.push(slice_to_vec(name));
            assert(bucket@[bucket@.len() - 1]@ == name@);
            self.names.push(slice_to_vec(name));
            assert(name_views(self.names@) =~= old_views.push(name@));
        }
        assert forall|n: Seq<u8>| bucket_holds(bucket@, n) <==> (bucket_holds(before, n) || n
            == name@) by {
            if bucket_holds(before, n) {
                let j = choose|j: int| 0 <= j < before.len() && (#[trigger] before[j])@ == n;
                assert(bucket@[j]@ == n);
            }
            if bucket_holds(bucket@, n) && n != name@ {
                let j = choose|j: int| 0 <= j < bucket@.len() && (#[trigger] bucket@[j])@ == n;
                assert(before[j]@ == n);
            }
        }
        self.buckets.insert(k, bucket);
        assert(self@ =~= old(self)@.insert(name@));
        proof {
            if old(self).well_formed() {
                let views = name_views(self.names@);
                if fresh {
                    assert(!old(self)@.contains(name@));
                    assert(old_views.to_set() == old(self)@);
                    assert(!old_views.to_set().contains(name@));
                    assert(!old_views.contains(name@));
                    assert(views.no_duplicates()) by {
                        assert forall|i: int, j: int|
                            0 <= i < views.len() && 0 <= j < views.len() && i != j implies views[i]
                            != views[j] by {
                            if i < old_views.len() {
                                assert(views[i] == old_views[i]);
                            }
                            if j < old_views.len() {
                                assert(views[j] == old_views[j]);
                            }
                        }
                    }
                    assert(views.to_set() =~= old_views.to_set().insert(name@)) by {
                        assert forall|n: Seq<u8>| views.contains(n) <==> (old_views.contains(n)
                            || n == name@) by {
                            if old_views.contains(n) {
                                let i = choose|i: int| 0 <= i < old_views.len() && old_views[i]
                                    == n;
                                assert(views[i] == n);
                            }
                            if n == name@ {
                                assert(views[views.len() - 1] == n);
                            }
                        }
                    }
                    assert(views.to_set() == self@);
                } else {
                    assert(views =~= old_views);
                    assert(old(self)@.contains(name@));
                    assert(self@ =~= old(self)@);
                }
                assert(self.well_formed());
            }
        }
        fresh
    }

    /// The names of this set that are not in `other`.
    pub fn difference(&self, other: &NameSet) -> (set: NameSet)
        requires
            self.well_formed(),
        ensures
            set@ == self@.difference(other@),
            set.well_formed(),
    {
        let mut set = NameSet::new();
        let mut i: usize = 0;
        let ghost views = name_views(self.names@);
        while i < self.names.len()
            invariant
                i <= self.names@.len(),
                views == name_views(self.names@),
                set.well_formed(),
                set@ == views.take(i as int).to_set().difference(other@),
            decreases self.names.len() - i,
        {
            if !other.contains(self.names[i].as_slice()) {
                set.insert(self.names[i].as_slice());
            }
            i += 1;
            assert(views.take(i as int).to_set() =~= views.take(i - 1).to_set().insert(
                views[i - 1],
            )) by {
                let shorter = views.take(i - 1);
                let longer = views.take(i as int);
                assert forall|n: Seq<u8>| longer.contains(n) <==> (shorter.contains(n) || n
                    == views[i - 1]) by {
                    if shorter.contains(n) {
                        let j = choose|j: int| 0 <= j < shorter.len() && shorter[j] == n;
                        assert(longer[j] == n);
                    }
                    if n == views[i - 1] {
                        assert(longer[i - 1] == n);
                    }
                    if longer.contains(n) && n != views[i - 1] {
                        let j = choose|j: int| 0 <= j < longer.len() && longer[j] == n;
                        assert(shorter[j] == n);
                    }
                }
            }
            assert(set@ =~= views.take(i as int).to_set().difference(other@));
        }
        assert(views.take(i as int) =~= views);
        set
    }
}

/// The byte `#`, which starts a comment line in a list of names.
pub const HASH: u8 = 0x23;

/// Whether `line` of a list of names gives a name: trimmed, it is not
/// empty and does not start with `#`.
pub open spec fn is_listed(line: Seq<u8>) -> bool {
    trimmed(line).len() > 0 && trimmed(line)[0] != HASH
}

/// The names that the list `content` gives: each of its lines trimmed, but
/// for blank lines and comment lines.
pub open spec fn listed_names(content: Seq<u8>) -> Set<Seq<u8>> {
    Set::new(
        |n: Seq<u8>|
            exists|i: int|
                0 <= i < lines(content).len() && is_listed(#[trigger] lines(content)[i])
                    && trimmed(lines(content)[i]) == n,
    )
}

/// A list gives what its first line gives and what the rest gives.
pub proof fn lemma_listed_names_step(content: Seq<u8>)
    requires
        content.len() > 0,
    ensures
        listed_names(content) == if is_listed(first_line(content)) {
            listed_names(after_first_line(content)).insert(trimmed(first_line(content)))
        } else {
            listed_names(after_first_line(content))
        },
{
    let ls = lines(content);
    let rest = lines(after_first_line(content));
    let line = first_line(content);
    assert(ls =~= seq![line] + rest);
    let expected = if is_listed(line) {
        listed_names(after_first_line(content)).insert(trimmed(line))
    } else {
        listed_names(after_first_line(content))
    };
    assert forall|n: Seq<u8>| listed_names(content).contains(n) <==> expected.contains(n) by {
        if listed_names(content).contains(n) {
            let i = choose|i: int|
                0 <= i < ls.len() && is_listed(#[trigger] ls[i]) && trimmed(ls[i]) == n;
            if i > 0 {
                assert(rest[i - 1] == ls[i]);
                assert(is_listed(rest[i - 1]) && trimmed(rest[i - 1]) == n);
            }
        }
        if expected.contains(n) {
            if listed_names(after_first_line(content)).contains(n) {
                let i = choose|i: int|
                    0 <= i < rest.len() && is_listed(#[trigger] rest[i]) && trimmed(rest[i]) == n;
                assert(ls[i + 1] == rest[i]);
                assert(is_listed(ls[i + 1]) && trimmed(ls[i + 1]) == n);
            } else {
                assert(ls[0] == line);
                assert(is_listed(ls[0]) && trimmed(ls[0]) == n);
            }
        }
    }
    assert(listed_names(content) =~= expected);
}

/// Reads a list of names, one on a line: each line trimmed is a name, but
/// for blank lines and lines that start with `#`.
pub fn parse_gem_list(content: &[u8]) -> (set: NameSet)
    ensures
        set@ == listed_names(content@),
        set.well_formed(),
{
    let mut set = NameSet::new();
    let mut reader = LineReader::new(content);
    loop
        invariant
            set.well_formed(),
            set@.union(listed_names(reader.remaining())) == listed_names(content@),
        ensures
            set.well_formed(),
            set@ == listed_names(content@),
        decreases reader.remaining().len(),
    {
        let ghost rest = reader.remaining();
        let ghost before = set@;
        match reader.next_line() {
            None => {
                assert(lines(rest) =~= Seq::<Seq<u8>>::empty());
                assert(listed_names(rest) =~= Set::<Seq<u8>>::empty());
                assert(set@.union(listed_names(rest)) =~= set@);
                break ;
            },
            Some(line) => {
                proof {
                    lemma_line_end(rest, 0);
                    lemma_listed_names_step(rest);
                }
                let name = trim(line);
                if name.len() > 0 && name[0] != HASH {
                    set.insert(name);
                }
                assert(set@.union(listed_names(reader.remaining())) =~= before.union(
                    listed_names(rest),
                ));
            },
        }
    }
    set
}

} // verus!
