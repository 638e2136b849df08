//! The alias table: names that the user gave to lights, each with the
//! light's address. The alias file lists lights in order; a name that
//! occurs twice stands for the later light.

use vstd::prelude::*;
use crate::ipv4::{dotted_quad, is_ipv4, is_ipv4_address, lemma_dotted_quad_is_ipv4};
use crate::text::push_char;
use vstd::string::StringExecFns;

verus! {

broadcast use vstd::seq_lib::group_seq_properties;

/// A light with the alias that the user gave it.
#[derive(Debug)]
pub struct Light {
    pub name: String,
    pub ip: String,
    pub mac: String,
}

impl Clone for Light {
    fn clone(&self) -> (r: Self)
        ensures
            r == *self,
    {
        Light { name: self.name.clone(), ip: self.ip.clone(), mac: self.mac.clone() }
    }
}

/// The contents of the alias file.
#[derive(Debug)]
pub struct Lights {
    pub light: Option<Vec<Light>>,
}

/// The names of a sequence of lights, in order.
pub open spec fn light_names(s: Seq<Light>) -> Seq<Seq<char>> {
    s.map_values(|l: Light| l.name@)
}

/// The table that a list of lights makes: each name stands for the last
/// light of the list that carries it.
pub open spec fn alias_map(s: Seq<Light>) -> Map<Seq<char>, Light>
    decreases s.len(),
{
    if s.len() == 0 {
        Map::empty()
    } else {
        alias_map(s.drop_last()).insert(s.last().name@, s.last())
    }
}

/// Some light of the table has the address `ip`.
pub open spec fn has_ip(m: Map<Seq<char>, Light>, ip: Seq<char>) -> bool {
    exists|k: Seq<char>| #[trigger] m.contains_key(k) && m[k].ip@ == ip
}

/// The names of the table are those of the list.
pub proof fn lemma_alias_map_dom(s: Seq<Light>)
    ensures
        alias_map(s).dom() == light_names(s).to_set(),
    decreases s.len(),
{
    if s.len() > 0 {
        lemma_alias_map_dom(s.drop_last());
        assert(light_names(s) =~= light_names(s.drop_last()).push(s.last().name@));
        light_names(s.drop_last()).lemma_push_to_set_commute(s.last().name@);
        assert(alias_map(s).dom() =~= light_names(s).to_set());
    }
}

/// A name stands for the last light of the list that carries it.
pub proof fn lemma_alias_map_last(s: Seq<Light>, i: int)
    requires
        0 <= i < s.len(),
        forall|j: int| i < j < s.len() ==> (#[trigger] s[j]).name@ != s[i].name@,
    ensures
        alias_map(s).contains_key(s[i].name@),
        alias_map(s)[s[i].name@] == s[i],
    decreases s.len(),
{
    if i < s.len() - 1 {
        assert(s.last() == s[s.len() - 1]);
        lemma_alias_map_last(s.drop_last(), i);
    }
}

/// The lights of the alias file, looked up by name. Each name occurs once.
pub struct AliasTable {
    entries: Vec<Light>,
}

impl View for AliasTable {
    type V = Map<Seq<char>, Light>;

    closed spec fn view(&self) -> Map<Seq<char>, Light> {
        alias_map(self.entries@)
    }
}

impl AliasTable {
    #[verifier::type_invariant]
    closed spec fn names_unique(self) -> bool {
        light_names(self.entries@).no_duplicates()
    }

    proof fn lemma_entry(self, i: int)
        requires
            light_names(self.entries@).no_duplicates(),
            0 <= i < self.entries@.len(),
        ensures
            self@.contains_key(self.entries@[i].name@),
            self@[self.entries@[i].name@] == self.entries@[i],
    {
        let s = self.entries@;
        assert forall|j: int| i < j < s.len() implies (#[trigger] s[j]).name@ != s[i].name@ by {
            assert(light_names(s)[j] == s[j].name@);
            assert(light_names(s)[i] == s[i].name@);
        }
        lemma_alias_map_last(s, i);
    }

    proof fn lemma_key(self, k: Seq<char>)
        requires
            self@.contains_key(k),
        ensures
            exists|i: int| 0 <= i < self.entries@.len() && (#[trigger] self.entries@[i]).name@ == k,
    {
        lemma_alias_map_dom(self.entries@);
        assert(light_names(self.entries@).to_set().contains(k));
        let i = choose|i: int|
            0 <= i < light_names(self.entries@).len() && light_names(self.entries@)[i] == k;
        assert(self.entries@[i].name@ == k);
    }

    /// The empty table.
    pub fn new() -> (t: AliasTable)
        ensures
            t@ == Map::<Seq<char>, Light>::empty(),
    {
        let t = AliasTable { entries: Vec::new() };
        proof {
            assert(light_names(t.entries@) =~= Seq::<Seq<char>>::empty());
        }
        t
    }

    /// The number of aliases.
    pub fn len(&self) -> (n: usize)
        ensures
            n == self@.len(),
    {
        proof {
            use_type_invariant(self);
            lemma_alias_map_dom(self.entries@);
            light_names(self.entries@).unique_seq_to_set();
        }
        self.entries.len()
    }

    fn position(&self, name: &String) -> (r: Option<usize>)
        ensures
            match r {
                Some(i) => i < self.entries@.len() && self.entries@[i as int].name@ == name@,
                None => forall|i: int|
                    0 <= i < self.entries@.len() ==> (#[trigger] self.entries@[i]).name@ != name@,
            },
    {
        let n = self.entries.len();
        let mut i: usize = 0;
        while i < n
            invariant
                n == self.entries@.len(),
                i <= n,
                forall|j: int| 0 <= j < i ==> (#[trigger] self.entries@[j]).name@ != name@,
            decreases n - i,
        {
            if self.entries[i].name == *name {
                return Some(i);
            }
            i = i + 1;
        }
        None
    }

    /// The light that carries the alias `name`, if any.
    pub fn get(&self, name: &String) -> (r: Option<&Light>)
        ensures
            r == (if self@.contains_key(name@) {
                Some(&self@[name@])
            } else {
                None
            }),
    {
        proof {
            use_type_invariant(self);
        }
        match self.position(name) {
            Some(i) => {
                proof {
                    self.lemma_entry(i as int);
                }
                Some(&self.entries[i])
            },
            None => {
                proof {
                    if self@.contains_key(name@) {
                        self.lemma_key(name@);
                    }
                }
                None
            },
        }
    }

    /// Gives the alias `light.name` to `light`, replacing the light it stood for.
    pub fn insert(&mut self, light: Light)
        ensures
            final(self)@ == old(self)@.insert(light.name@, light),
    {
        proof {
            use_type_invariant(&*self);
        }
        let ghost old_entries = self.entries@;
        let found = self.position(&light.name);
        let ghost pos: int = match found {
            Some(i) => i as int,
            None => old_entries.len() as int,
        };
        let mut entries: Vec<Light> = Vec::new();
        proof {
            assert(light_names(entries@) =~= Seq::<Seq<char>>::empty());
        }
        std::mem::swap(&mut entries, &mut self.entries);
        match found {
            Some(i) => {
                proof {
                    let s2 = old_entries.update(i as int, light);
                    assert(light_names(s2) =~= light_names(old_entries));
                }
                entries.set(i, light);
            },
            None => {
                proof {
                    let s2 = old_entries.push(light);
                    assert(light_names(s2) =~= light_names(old_entries).push(light.name@));
                    assert forall|a: int, b: int|
                        0 <= a < b < light_names(s2).len() implies light_names(s2)[a]
                        != light_names(s2)[b] by {
                        if b == old_entries.len() {
                            assert(light_names(s2)[a] == old_entries[a].name@);
                        } else {
                            assert(light_names(s2)[a] == light_names(old_entries)[a]);
                            assert(light_names(s2)[b] == light_names(old_entries)[b]);
                        }
                    }
                }
                entries.push(light);
            },
        }
        self.entries = entries;
        proof {
            use_type_invariant(&*self);
            lemma_alias_map_dom(self.entries@);
            lemma_alias_map_dom(old_entries);
            let m_old = alias_map(old_entries);
            let m_new = alias_map(self.entries@);
            let expect = m_old.insert(light.name@, light);
            assert forall|k: Seq<char>| #[trigger] m_new.contains_key(k) <==> expect.contains_key(k) by {
                if m_new.contains_key(k) {
                    assert(light_names(self.entries@).to_set().contains(k));
                    let i = choose|i: int|
                        0 <= i < light_names(self.entries@).len() && light_names(self.entries@)[i]
                            == k;
                    if k != light.name@ {
                        assert(self.entries@[i] == old_entries[i]);
                        assert(light_names(old_entries)[i] == k);
                    }
                }
                if expect.contains_key(k) && k != light.name@ {
                    assert(light_names(old_entries).to_set().contains(k));
                    let i = choose|i: int|
                        0 <= i < light_names(old_entries).len() && light_names(old_entries)[i] == k;
                    assert(self.entries@[i] == old_entries[i]);
                    assert(light_names(self.entries@)[i] == k);
                }
                if k == light.name@ {
                    assert(self.entries@[pos] == light);
                    assert(light_names(self.entries@)[pos] == k);
                }
            }
            assert forall|k: Seq<char>| #[trigger] m_new.contains_key(k) implies m_new[k] == expect[k] by {
                assert(light_names(self.entries@).to_set().contains(k));
                let i = choose|i: int|
                    0 <= i < light_names(self.entries@).len() && light_names(self.entries@)[i] == k;
                self.lemma_entry(i);
                assert(light_names(self.entries@)[pos] == light.name@);
                if k == light.name@ {
                    assert(i == pos);
                } else {
                    assert(self.entries@[i] == old_entries[i]);
                    assert forall|j: int| i < j < old_entries.len() implies (#[trigger] old_entries[j]).name@ != old_entries[i].name@ by {
                        assert(light_names(old_entries)[j] == old_entries[j].name@);
                        assert(light_names(old_entries)[i] == old_entries[i].name@);
                    }
                    lemma_alias_map_last(old_entries, i);
                }
            }
            assert(m_new =~= expect);
        }
    }

    /// The table that the alias file makes: each name stands for the last
    /// light of the file that carries it; no list at all makes an empty table.
    pub fn from_lights(lights: Lights) -> (t: AliasTable)
        ensures
            t@ == (match lights.light {
                Some(v) => alias_map(v@),
                None => Map::<Seq<char>, Light>::empty(),
            }),
    {
        match lights.light {
            None => AliasTable::new(),
            Some(v) => {
                let ghost all = v@;
                let mut rest = v;
                let total = rest.len();
                let mut t = AliasTable::new();
                let mut k: usize = 0;
                proof {
                    assert(all.take(0) =~= Seq::<Light>::empty());
                    assert(all.skip(0) =~= all);
                }
                while rest.len() > 0
                    invariant
                        k <= all.len(),
                        all.len() == total,
                        k + rest@.len() == all.len(),
                        rest@ == all.skip(k as int),
                        t@ == alias_map(all.take(k as int)),
                    decreases rest.len(),
                {
                    let light = rest.remove(0);
                    proof {
                        assert(all.take(k + 1).drop_last() =~= all.take(k as int));
                        assert(all.take(k + 1).last() == light);
                        assert(all.skip(k + 1) =~= all.skip(k as int).drop_first());
                    }
                    t.insert(light);
                    k = k + 1;
                }
                proof {
                    assert(all.take(k as int) =~= all);
                }
                t
            },
        }
    }

    /// Whether some light of the table has the address `ip`.
    pub fn contains_ip(&self, ip: &String) -> (r: bool)
        ensures
            r == has_ip(self@, ip@),
    {
        match self.alias_for_ip(ip) {
            Some(_) => true,
            None => false,
        }
    }

    /// A light of the table that has the address `ip`, if there is one.
    /// Where several have it, which one comes back is left open.
    pub fn alias_for_ip(&self, ip: &String) -> (r: Option<&Light>)
        ensures
            r is None <==> !has_ip(self@, ip@),
            r matches Some(l) ==> l.ip@ == ip@ && self@.contains_key(l.name@) && self@[l.name@]
                == *l,
    {
        proof {
            use_type_invariant(self);
        }
        let n = self.entries.len();
        let mut i: usize = 0;
        while i < n
            invariant
                n == self.entries@.len(),
                i <= n,
                forall|j: int| 0 <= j < i ==> (#[trigger] self.entries@[j]).ip@ != ip@,
                light_names(self.entries@).no_duplicates(),
            decreases n - i,
        {
            if self.entries[i].ip == *ip {
                proof {
                    self.lemma_entry(i as int);
                    assert(self@.contains_key(self.entries@[i as int].name@));
                }
                return Some(&self.entries[i]);
            }
            i = i + 1;
        }
        proof {
            if has_ip(self@, ip@) {
                let k = choose|k: Seq<char>| #[trigger] self@.contains_key(k) && self@[k].ip@ == ip@;
                self.lemma_key(k);
                let j = choose|j: int| 0 <= j < self.entries@.len() && (#[trigger] self.entries@[j]).name@ == k;
                self.lemma_entry(j);
            }
        }
        None
    }

    /// The lights of the table, each alias once, in no promised order.
    pub fn lights(&self) -> (r: &Vec<Light>)
        ensures
            r@.len() == self@.len(),
            light_names(r@).no_duplicates(),
            forall|i: int|
                0 <= i < r@.len() ==> self@.contains_key((#[trigger] r@[i]).name@) && self@[r@[i].name@]
                    == r@[i],
            forall|k: Seq<char>|
                #[trigger] self@.contains_key(k) ==> exists|i: int|
                    0 <= i < r@.len() && (#[trigger] r@[i]).name@ == k,
    {
        proof {
            use_type_invariant(self);
            lemma_alias_map_dom(self.entries@);
            light_names(self.entries@).unique_seq_to_set();
            assert forall|i: int| 0 <= i < self.entries@.len() implies self@.contains_key(
                (#[trigger] self.entries@[i]).name@,
            ) && self@[self.entries@[i].name@] == self.entries@[i] by {
                self.lemma_entry(i);
            }
            assert forall|k: Seq<char>| #[trigger] self@.contains_key(k) implies exists|i: int|
                0 <= i < self.entries@.len() && (#[trigger] self.entries@[i]).name@ == k by {
                self.lemma_key(k);
            }
        }
        &self.entries
    }
}

/// Why an alias could not be resolved.
#[derive(Debug)]
pub enum ConfigError {
    /// The text is neither an IPv4 address nor an alias of one; the text.
    AliasLookUpError(String),
}

/// The address that `name` resolves to: its light's address where it is an
/// alias, else the text itself.
pub open spec fn resolved_ip(m: Map<Seq<char>, Light>, name: Seq<char>) -> Seq<char> {
    if m.contains_key(name) {
        m[name].ip@
    } else {
        name
    }
}

/// Resolves an alias or an address to `(name, address)`; the address must be
/// an IPv4 address, else the alias counts as unknown and the error carries the text.
pub fn resolve_name_or_ip(lights: &AliasTable, ip_or_alias: &String) -> (r: Result<
    (String, String),
    ConfigError,
>)
    ensures
        r is Ok <==> is_ipv4(resolved_ip(lights@, ip_or_alias@)),
        r matches Ok((name, ip)) ==> name@ == ip_or_alias@ && ip@ == resolved_ip(
            lights@,
            ip_or_alias@,
        ),
        r matches Err(ConfigError::AliasLookUpError(name)) ==> name@ == ip_or_alias@,
{
    let name = ip_or_alias.clone();
    let ip = match lights.get(ip_or_alias) {
        Some(light) => light.ip.clone(),
        None => ip_or_alias.clone(),
    };
    if is_ipv4_address(ip.as_str()) {
        Ok((name, ip))
    } else {
        Err(ConfigError::AliasLookUpError(name))
    }
}

/// std's `io::Error`.
#[verifier::external_type_specification]
#[verifier::external_body]
pub struct ExIoError(std::io::Error);

/// The error that an unknown alias is reported with: std's `io::Error::new`
/// of kind `InvalidInput` with the message `Alias '<name>' not found.`.
/// Nothing is stated of the error: Verus sees an `io::Error` as opaque.
#[verifier::external_body]
fn alias_not_found(name: String) -> std::io::Error {
    std::io::Error::new(std::io::ErrorKind::InvalidInput, format!("Alias '{name}' not found."))
}

/// Resolves an alias or an address to `(name, address)`, as
/// `resolve_name_or_ip` does; an unknown alias is reported as an `io::Error`
/// of kind `InvalidInput` that says `Alias '<name>' not found.`.
pub fn parse_name_or_ip(lights: &AliasTable, ip_or_alias: &String) -> (r: std::io::Result<
    (String, String),
>)
    ensures
        r is Ok <==> is_ipv4(resolved_ip(lights@, ip_or_alias@)),
        r matches Ok((name, ip)) ==> name@ == ip_or_alias@ && ip@ == resolved_ip(
            lights@,
            ip_or_alias@,
        ),
{
    match resolve_name_or_ip(lights, ip_or_alias) {
        Ok(pair) => Ok(pair),
        Err(ConfigError::AliasLookUpError(name)) => Err(alias_not_found(name)),
    }
}


/// Whether new aliases must be set apart from what the alias file already
/// holds (its bytes): the file has at least two bytes and does not already
/// end in an empty line.
pub open spec fn needs_separator(existing: Seq<u8>) -> bool {
    existing.len() >= 2 && !(existing[existing.len() - 1] == 10 && existing[existing.len() - 2]
        == 10)
}

/// The text to append to the alias file, whose bytes are `existing`, to add
/// `new_aliases`: a line break in front of them where `needs_separator` says so.
pub fn alias_appendix(existing: &[u8], new_aliases: &str) -> (r: String)
    ensures
        r@ == (if needs_separator(existing@) {
            seq!['\n'] + new_aliases@
        } else {
            new_aliases@
        }),
{
    let n = existing.len();
    let sep = n >= 2 && !(existing[n - 1] == 10 && existing[n - 2] == 10);
    let mut r = String::new();
    if sep {
        push_char(&mut r, '\n');
    }
    r.append(new_aliases);
    proof {
        if sep {
            assert(r@ =~= seq!['\n'] + new_aliases@);
        } else {
            assert(r@ =~= new_aliases@);
        }
    }
    r
}

/// After an alias is given to a light, the alias stands for that light and
/// every other alias keeps standing for its own.
pub proof fn lemma_insert_then_get(m: Map<Seq<char>, Light>, light: Light, k: Seq<char>)
    ensures
        m.insert(light.name@, light).contains_key(light.name@),
        m.insert(light.name@, light)[light.name@] == light,
        k != light.name@ ==> (m.insert(light.name@, light).contains_key(k) == m.contains_key(k)),
        k != light.name@ && m.contains_key(k) ==> m.insert(light.name@, light)[k] == m[k],
{
}

/// An alias whose light has an IPv4 address resolves to that address; an
/// address in dotted-quad notation that is no alias resolves to itself.
pub proof fn lemma_resolution(m: Map<Seq<char>, Light>, name: Seq<char>, a: u8, b: u8, c: u8, d: u8)
    ensures
        m.contains_key(name) ==> resolved_ip(m, name) == m[name].ip@,
        !m.contains_key(dotted_quad(a, b, c, d)) ==> resolved_ip(m, dotted_quad(a, b, c, d))
            == dotted_quad(a, b, c, d) && is_ipv4(resolved_ip(m, dotted_quad(a, b, c, d))),
{
    lemma_dotted_quad_is_ipv4(a, b, c, d);
}

/// New aliases always start on a line of their own: in front of them stands
/// either the line break that the appendix adds, or the line break that the
/// file already ends with, or a file shorter than two bytes.
pub proof fn lemma_appendix_starts_line(existing: Seq<u8>, new_aliases: Seq<char>)
    ensures
        existing.len() >= 2 ==> (needs_separator(existing) || existing.last() == 10),
        needs_separator(existing) ==> (seq!['\n'] + new_aliases)[0] == '\n',
        existing.len() >= 2 && existing.last() != 10 ==> needs_separator(existing),
        existing.len() >= 2 && existing[existing.len() - 2] != 10 ==> needs_separator(existing),
        existing.len() >= 2 && existing.last() == 10 && existing[existing.len() - 2] == 10
            ==> !needs_separator(existing),
        existing.len() < 2 ==> !needs_separator(existing),
{
}

/// The table `m` with the lights of `t` given their aliases one after the
/// other, so that a later light wins over an earlier one of the same name.
pub open spec fn insert_all(m: Map<Seq<char>, Light>, t: Seq<Light>) -> Map<Seq<char>, Light>
    decreases t.len(),
{
    if t.len() == 0 {
        m
    } else {
        insert_all(m, t.drop_last()).insert(t.last().name@, t.last())
    }
}

/// Lights added at the end of the alias file are in the table it makes
/// afterwards: the table of the longer list is the table of the old list with
/// the new lights inserted in order.
pub proof fn lemma_alias_map_extend(s: Seq<Light>, t: Seq<Light>)
    ensures
        alias_map(s + t) == insert_all(alias_map(s), t),
    decreases t.len(),
{
    if t.len() == 0 {
        assert(s + t =~= s);
    } else {
        lemma_alias_map_extend(s, t.drop_last());
        assert((s + t).drop_last() =~= s + t.drop_last());
        assert((s + t).last() == t.last());
    }
}

} // verus!
