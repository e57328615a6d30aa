//! The explicit model of on-disk state that the engine works on: named
//! slots (filename to contents) for the boot source directory, the ESP
//! install directory and the loader entries directory, and the loader's
//! default pointer and menu timeout. An unverified shell mirrors this model
//! from and to the real disk; every rule about it is proved here.

use vstd::prelude::*;
use vstd::string::*;

verus! {

/// Executable string equality by characters.
pub fn str_eq(a: &str, b: &str) -> (r: bool)
    ensures
        r == (a@ == b@),
{
    let alen = a.unicode_len();
    let blen = b.unicode_len();
    if alen != blen {
        return false;
    }
    let r = crate::template::matches_at(a, 0, b);
    proof {
        assert(a@.subrange(0, a@.len() as int) =~= a@);
    }
    r
}

/// One named file: its name and its contents.
pub struct NamedSlot<V> {
    pub name: String,
    pub data: V,
}

/// A directory of uniquely named files, seen as a map from name to the
/// view of the contents.
pub struct StrMap<V> {
    pub entries: Vec<NamedSlot<V>>,
}

/// The map that a sequence of slots denotes; later slots win, though a
/// well-formed directory never repeats a name.
pub open spec fn map_of<V: View>(es: Seq<NamedSlot<V>>) -> Map<Seq<char>, V::V>
    decreases es.len(),
{
    if es.len() == 0 {
        Map::<Seq<char>, V::V>::empty()
    } else {
        map_of(es.drop_last()).insert(es.last().name@, es.last().data@)
    }
}

impl<V: View> View for StrMap<V> {
    type V = Map<Seq<char>, V::V>;

    open spec fn view(&self) -> Map<Seq<char>, V::V> {
        map_of(self.entries@)
    }
}

/// No name repeats.
pub open spec fn distinct_names<V: View>(es: Seq<NamedSlot<V>>) -> bool {
    forall|i: int, j: int|
        0 <= i < j < es.len() ==> #[trigger] es[i].name@ != #[trigger] es[j].name@
}

/// A name is in the map exactly when some slot holds it.
pub proof fn lemma_map_of_contains<V: View>(es: Seq<NamedSlot<V>>, k: Seq<char>)
    ensures
        map_of(es).contains_key(k) <==> exists|i: int| 0 <= i < es.len() && #[trigger] es[i].name@
            == k,
    decreases es.len(),
{
    if es.len() > 0 {
        lemma_map_of_contains(es.drop_last(), k);
        if map_of(es).contains_key(k) {
            if k == es.last().name@ {
                assert(es[es.len() - 1].name@ == k);
            } else {
                let i = choose|i: int|
                    0 <= i < es.drop_last().len() && #[trigger] es.drop_last()[i].name@ == k;
                assert(es[i].name@ == k);
            }
        }
        if exists|i: int| 0 <= i < es.len() && #[trigger] es[i].name@ == k {
            let i = choose|i: int| 0 <= i < es.len() && #[trigger] es[i].name@ == k;
            if i < es.len() - 1 {
                assert(es.drop_last()[i].name@ == k);
            }
        }
    }
}

/// With distinct names, the slot that holds a name gives its value.
pub proof fn lemma_map_of_get<V: View>(es: Seq<NamedSlot<V>>, k: Seq<char>, i: int)
    requires
        distinct_names(es),
        0 <= i < es.len(),
        es[i].name@ == k,
    ensures
        map_of(es).contains_key(k),
        map_of(es)[k] == es[i].data@,
    decreases es.len(),
{
    if i == es.len() - 1 {
    } else {
        assert(es[i].name@ != es[es.len() - 1].name@);
        assert(forall|a: int, b: int|
            0 <= a < b < es.drop_last().len() ==> #[trigger] es.drop_last()[a].name@
                != #[trigger] es.drop_last()[b].name@) by {
            assert(forall|a: int|
                0 <= a < es.drop_last().len() ==> es.drop_last()[a] == es[a]);
        }
        assert(es.drop_last()[i].name@ == k);
        lemma_map_of_get(es.drop_last(), k, i);
    }
}

/// Appending a freshly named slot inserts it.
pub proof fn lemma_map_of_push<V: View>(es: Seq<NamedSlot<V>>, slot: NamedSlot<V>)
    ensures
        map_of(es.push(slot)) == map_of(es).insert(slot.name@, slot.data@),
{
    assert(es.push(slot).drop_last() =~= es);
}

/// Taking out the slot that holds a name removes that name and nothing
/// else.
pub proof fn lemma_map_of_remove<V: View>(es: Seq<NamedSlot<V>>, k: Seq<char>, i: int)
    requires
        distinct_names(es),
        0 <= i < es.len(),
        es[i].name@ == k,
    ensures
        map_of(es.remove(i)) == map_of(es).remove(k),
    decreases es.len(),
{
    es.remove_ensures(i);
    if i == es.len() - 1 {
        assert(es.remove(i) =~= es.drop_last());
        lemma_map_of_contains(es.drop_last(), k);
        assert(forall|a: int| 0 <= a < es.drop_last().len() ==> es.drop_last()[a] == es[a]);
        assert(!map_of(es.drop_last()).contains_key(k));
        assert(map_of(es).remove(k) =~= map_of(es.drop_last()));
    } else {
        let shorter = es.drop_last();
        assert(forall|a: int| 0 <= a < shorter.len() ==> shorter[a] == es[a]);
        assert(distinct_names(shorter));
        assert(shorter[i].name@ == k);
        lemma_map_of_remove(shorter, k, i);
        assert(es.remove(i).drop_last() =~= shorter.remove(i));
        assert(es.remove(i).last() == es.last());
        assert(k != es.last().name@);
        assert(map_of(shorter).remove(k).insert(es.last().name@, es.last().data@) =~= map_of(
            shorter,
        ).insert(es.last().name@, es.last().data@).remove(k));
    }
}

impl<V: View> StrMap<V> {
    /// Every name occurs once.
    pub open spec fn wf(&self) -> bool {
        distinct_names(self.entries@)
    }

    /// An empty directory.
    pub fn new() -> (r: StrMap<V>)
        ensures
            r.wf(),
            r@ == Map::<Seq<char>, V::V>::empty(),
    {
        StrMap { entries: Vec::new() }
    }

    /// The index of the slot holding `name`, if any.
    fn index_of(&self, name: &str) -> (r: Option<usize>)
        ensures
            match r {
                Some(i) => i < self.entries@.len() && self.entries@[i as int].name@ == name@,
                None => forall|i: int|
                    0 <= i < self.entries@.len() ==> #[trigger] self.entries@[i].name@ != name@,
            },
    {
        let n = self.entries.len();
        let mut i: usize = 0;
        loop
            invariant
                0 <= i <= n,
                n == self.entries@.len(),
                forall|j: int| 0 <= j < i ==> #[trigger] self.entries@[j].name@ != name@,
            ensures
                i == n || (i < n && self.entries@[i as int].name@ == name@),
                forall|j: int| 0 <= j < i ==> #[trigger] self.entries@[j].name@ != name@,
            decreases n - i,
        {
            if i == n {
                break ;
            }
            if str_eq(self.entries[i].name.as_str(), name) {
                break ;
            }
            i = i + 1;
        }
        if i == n {
            None
        } else {
            Some(i)
        }
    }

    /// Whether a file of this name is present.
    pub fn contains(&self, name: &str) -> (r: bool)
        requires
            self.wf(),
        ensures
            r == self@.contains_key(name@),
    {
        proof {
            lemma_map_of_contains(self.entries@, name@);
        }
        match self.index_of(name) {
            Some(i) => true,
            None => false,
        }
    }

    /// The contents of the file of this name, if present.
    pub fn get(&self, name: &str) -> (r: Option<&V>)
        requires
            self.wf(),
        ensures
            match r {
                Some(d) => self@.contains_key(name@) && d@ == self@[name@],
                None => !self@.contains_key(name@),
            },
    {
        proof {
            lemma_map_of_contains(self.entries@, name@);
        }
        match self.index_of(name) {
            Some(i) => {
                proof {
                    lemma_map_of_get(self.entries@, name@, i as int);
                }
                Some(&self.entries[i].data)
            },
            None => None,
        }
    }

    /// Writes a file: the new contents replace any previous ones.
    pub fn insert(&mut self, name: &str, data: V)
        requires
            old(self).wf(),
        ensures
            final(self).wf(),
            final(self)@ == old(self)@.insert(name@, data@),
    {
        let ghost es0 = self.entries@;
        match self.index_of(name) {
            Some(i) => {
                proof {
                    lemma_map_of_remove(es0, name@, i as int);
                }
                self.entries.remove(i);
                proof {
                    es0.remove_ensures(i as int);
                    assert(forall|a: int, b: int|
                        0 <= a < b < self.entries@.len() ==> #[trigger] self.entries@[a].name@
                            != #[trigger] self.entries@[b].name@);
                    lemma_map_of_contains(self.entries@, name@);
                }
                let slot = NamedSlot { name: String::from_str(name), data };
                proof {
                    lemma_map_of_push(self.entries@, slot);
                }
                self.entries.push(slot);
                proof {
                    assert(self@ =~= old(self)@.insert(name@, data@));
                    let es = self.entries@;
                    assert forall|a: int, b: int| 0 <= a < b < es.len() implies #[trigger] es[a].name@
                        != #[trigger] es[b].name@ by {
                        if b == es.len() - 1 {
                            lemma_map_of_contains(es.drop_last(), name@);
                            assert(es.drop_last()[a] == es[a]);
                        }
                    }
                }
            },
            None => {
                let slot = NamedSlot { name: String::from_str(name), data };
                proof {
                    lemma_map_of_push(self.entries@, slot);
                }
                self.entries.push(slot);
                proof {
                    let es = self.entries@;
                    assert forall|a: int, b: int| 0 <= a < b < es.len() implies #[trigger] es[a].name@
                        != #[trigger] es[b].name@ by {
                        assert(forall|c: int| 0 <= c < es0.len() ==> es[c] == es0[c]);
                    }
                }
            },
        }
    }

    /// Deletes the file of this name if it is present; deleting an absent
    /// file changes nothing.
    pub fn remove(&mut self, name: &str)
        requires
            old(self).wf(),
        ensures
            final(self).wf(),
            final(self)@ == old(self)@.remove(name@),
    {
        let ghost es0 = self.entries@;
        match self.index_of(name) {
            Some(i) => {
                proof {
                    lemma_map_of_remove(es0, name@, i as int);
                }
                self.entries.remove(i);
                proof {
                    es0.remove_ensures(i as int);
                    assert(forall|a: int, b: int|
                        0 <= a < b < self.entries@.len() ==> #[trigger] self.entries@[a].name@
                            != #[trigger] self.entries@[b].name@);
                }
            },
            None => {
                proof {
                    lemma_map_of_contains(es0, name@);
                    assert(self@ =~= old(self)@.remove(name@));
                }
            },
        }
    }

    /// The names of all files, in slot order.
    pub fn names(&self) -> (r: Vec<String>)
        ensures
            r@.len() == self.entries@.len(),
            forall|i: int| 0 <= i < r@.len() ==> #[trigger] r@[i]@ == self.entries@[i].name@,
    {
        let n = self.entries.len();
        let mut out: Vec<String> = Vec::new();
        let mut i: usize = 0;
        while i < n
            invariant
                0 <= i <= n,
                n == self.entries@.len(),
                out@.len() == i,
                forall|j: int| 0 <= j < i ==> #[trigger] out@[j]@ == self.entries@[j].name@,
            decreases n - i,
        {
            out.push(self.entries[i].name.clone());
            i = i + 1;
        }
        out
    }

    /// Every listed name is a key of the map and the other way round.
    pub proof fn lemma_names_are_keys(&self, k: Seq<char>)
        ensures
            self@.contains_key(k) <==> exists|i: int|
                0 <= i < self.entries@.len() && #[trigger] self.entries@[i].name@ == k,
    {
        lemma_map_of_contains(self.entries@, k);
    }
}

/// The world the engine acts on: the boot source directory, the ESP
/// install directory, the loader entries directory, and the loader
/// configuration (default pointer and menu timeout). The two `*_dir_exists`
/// flags say whether the directories have been set up at all (the
/// initialisation flow creates them).
pub struct BootEnv {
    pub source: StrMap<Vec<u8>>,
    pub esp: StrMap<Vec<u8>>,
    pub entries: StrMap<String>,
    pub default_entry: Option<String>,
    pub timeout: Option<u32>,
    pub esp_dir_exists: bool,
    pub entries_dir_exists: bool,
}

impl BootEnv {
    /// The three directories are well-formed.
    pub open spec fn wf(&self) -> bool {
        self.source.wf() && self.esp.wf() && self.entries.wf()
    }

    /// The default pointer as a sequence, for contracts.
    pub open spec fn spec_default(&self) -> Option<Seq<char>> {
        match self.default_entry {
            Some(s) => Some(s@),
            None => None,
        }
    }
}

} // verus!
