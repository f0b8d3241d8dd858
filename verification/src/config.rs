//! The repository configuration: a flat map from dotted keys to values, as
//! git stores it. Values are kept as the byte strings that were written;
//! a boolean is written as the literal `true` or `false` and read back by
//! parsing, as git does.
use vstd::prelude::*;

verus! {

/// One key-value entry of the configuration.
#[derive(Debug, Clone)]
pub struct ConfigEntry {
    /// The dotted key, such as `branch.feature.merge`.
    pub key: Vec<u8>,
    /// The raw value bytes.
    pub value: Vec<u8>,
}

/// The repository configuration.
#[derive(Debug, Clone)]
pub struct Config {
    entries: Vec<ConfigEntry>,
}

impl View for Config {
    type V = Map<Seq<u8>, Seq<u8>>;

    closed spec fn view(&self) -> Map<Seq<u8>, Seq<u8>> {
        Self::entries_map(self.entries@)
    }
}

impl Config {
    /// The map a list of entries denotes: later entries override earlier
    /// ones with the same key.
    spec fn entries_map(entries: Seq<ConfigEntry>) -> Map<Seq<u8>, Seq<u8>>
        decreases entries.len(),
    {
        if entries.len() == 0 {
            Map::empty()
        } else {
            Self::entries_map(entries.drop_last()).insert(
                entries.last().key@,
                entries.last().value@,
            )
        }
    }

    /// An empty configuration.
    pub fn new() -> (r: Config)
        ensures
            r@ == Map::<Seq<u8>, Seq<u8>>::empty(),
    {
        Config { entries: Vec::new() }
    }

    /// Sets `key` to the byte string `value`.
    pub fn set_str(&mut self, key: &Vec<u8>, value: &Vec<u8>) -> (r: Result<(), crate::Error>)
        ensures
            r is Ok,
            final(self)@ == old(self)@.insert(key@, value@),
    {
        let entry = ConfigEntry { key: crate::clone_bytes(key), value: crate::clone_bytes(value) };
        self.entries.push(entry);
        proof {
            assert(self.entries@.drop_last() =~= old(self).entries@);
        }
        Ok(())
    }

    /// Sets `key` to a boolean, written as the literal `true` or `false`.
    pub fn set_bool(&mut self, key: &Vec<u8>, value: bool) -> (r: Result<(), crate::Error>)
        ensures
            r is Ok,
            final(self)@ == old(self)@.insert(key@, spec_bool_bytes(value)),
    {
        let mut raw: Vec<u8> = Vec::new();
        if value {
            raw.push(116);
            raw.push(114);
            raw.push(117);
            raw.push(101);
            assert(raw@ =~= spec_bool_bytes(true));
        } else {
            raw.push(102);
            raw.push(97);
            raw.push(108);
            raw.push(115);
            raw.push(101);
            assert(raw@ =~= spec_bool_bytes(false));
        }
        let entry = ConfigEntry { key: crate::clone_bytes(key), value: raw };
        self.entries.push(entry);
        proof {
            assert(self.entries@.drop_last() =~= old(self).entries@);
        }
        Ok(())
    }

    /// Reads the raw value of `key` as a byte string, or `None` when the
    /// key was never set.
    pub fn get_string(&self, key: &Vec<u8>) -> (r: Result<Option<Vec<u8>>, crate::Error>)
        ensures
            r is Ok,
            self@.contains_key(key@) ==> (r->Ok_0 is Some && r->Ok_0->0@ == self@[key@]),
            !self@.contains_key(key@) ==> r->Ok_0 is None,
    {
        match self.lookup(key) {
            Some(v) => Ok(Some(v)),
            None => Ok(None),
        }
    }

    /// Reads `key` as a boolean. `None` when the key was never set; an
    /// error when the stored value is neither `true` nor `false`.
    pub fn get_bool(&self, key: &Vec<u8>) -> (r: Result<Option<bool>, crate::Error>)
        ensures
            !self@.contains_key(key@) ==> r == Ok::<Option<bool>, crate::Error>(None),
            self@.contains_key(key@) && self@[key@] == spec_bool_bytes(true)
                ==> r == Ok::<Option<bool>, crate::Error>(Some(true)),
            self@.contains_key(key@) && self@[key@] == spec_bool_bytes(false)
                ==> r == Ok::<Option<bool>, crate::Error>(Some(false)),
            self@.contains_key(key@) && self@[key@] != spec_bool_bytes(true)
                && self@[key@] != spec_bool_bytes(false)
                ==> r == Err::<Option<bool>, crate::Error>(crate::Error::StateUnavailable),
    {
        let raw = match self.lookup(key) {
            Some(v) => v,
            None => {
                return Ok(None);
            },
        };
        let mut lit_true: Vec<u8> = Vec::new();
        lit_true.push(116);
        lit_true.push(114);
        lit_true.push(117);
        lit_true.push(101);
        assert(lit_true@ =~= spec_bool_bytes(true));
        if crate::bytes_eq(&raw, &lit_true) {
            return Ok(Some(true));
        }
        let mut lit_false: Vec<u8> = Vec::new();
        lit_false.push(102);
        lit_false.push(97);
        lit_false.push(108);
        lit_false.push(115);
        lit_false.push(101);
        assert(lit_false@ =~= spec_bool_bytes(false));
        if crate::bytes_eq(&raw, &lit_false) {
            return Ok(Some(false));
        }
        Err(crate::Error::StateUnavailable)
    }

    /// Copies the configuration, entry for entry.
    pub fn duplicate(&self) -> (r: Config)
        ensures
            r@ == self@,
    {
        let n = self.entries.len();
        let mut out: Vec<ConfigEntry> = Vec::new();
        let mut i: usize = 0;
        while i < n
            invariant
                n == self.entries@.len(),
                i <= n,
                out@.len() == i,
                forall|j: int| 0 <= j < i ==> #[trigger] out@[j].key@ == self.entries@[j].key@
                    && out@[j].value@ == self.entries@[j].value@,
            decreases n - i,
        {
            let entry = ConfigEntry {
                key: crate::clone_bytes(&self.entries[i].key),
                value: crate::clone_bytes(&self.entries[i].value),
            };
            out.push(entry);
            i += 1;
        }
        proof {
            lemma_entries_map_congruent(out@, self.entries@);
        }
        Config { entries: out }
    }

    /// Finds the value of `key`: the value of the last entry with that key.
    fn lookup(&self, key: &Vec<u8>) -> (r: Option<Vec<u8>>)
        ensures
            self@.contains_key(key@) ==> (r is Some && r->0@ == self@[key@]),
            !self@.contains_key(key@) ==> r is None,
    {
        let n = self.entries.len();
        let mut i: usize = n;
        proof {
            assert(self.entries@.subrange(0, n as int) =~= self.entries@);
        }
        while i > 0
            invariant
                n == self.entries@.len(),
                i <= n,
                forall|j: int| i <= j < n ==> #[trigger] self.entries@[j].key@ != key@,
                Self::entries_map(self.entries@).contains_key(key@)
                    == Self::entries_map(self.entries@.subrange(0, i as int)).contains_key(key@),
                Self::entries_map(self.entries@).contains_key(key@)
                    ==> Self::entries_map(self.entries@)[key@]
                        == Self::entries_map(self.entries@.subrange(0, i as int))[key@],
            decreases i,
        {
            i -= 1;
            proof {
                assert(self.entries@.subrange(0, i + 1).drop_last()
                    =~= self.entries@.subrange(0, i as int));
                assert(self.entries@.subrange(0, i + 1).last() == self.entries@[i as int]);
            }
            if crate::bytes_eq(&self.entries[i].key, key) {
                return Some(crate::clone_bytes(&self.entries[i].value));
            }
        }
        proof {
            assert(self.entries@.subrange(0, 0) =~= Seq::<ConfigEntry>::empty());
        }
        None
    }
}

/// Two entry lists with the same keys and values denote the same map.
proof fn lemma_entries_map_congruent(e1: Seq<ConfigEntry>, e2: Seq<ConfigEntry>)
    requires
        e1.len() == e2.len(),
        forall|j: int| 0 <= j < e1.len() ==> #[trigger] e1[j].key@ == e2[j].key@
            && e1[j].value@ == e2[j].value@,
    ensures
        Config::entries_map(e1) == Config::entries_map(e2),
    decreases e1.len(),
{
    if e1.len() > 0 {
        lemma_entries_map_congruent(e1.drop_last(), e2.drop_last());
        assert(e1.last().key@ == e2.last().key@);
        assert(e1.last().value@ == e2.last().value@);
    }
}

/// The byte string git writes for a boolean.
pub open spec fn spec_bool_bytes(b: bool) -> Seq<u8> {
    if b {
        seq![116, 114, 117, 101]
    } else {
        seq![102, 97, 108, 115, 101]
    }
}

} // verus!
