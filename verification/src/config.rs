//! The fan configuration store.
//!
//! A [`Config`] maps fan names to [`FanConfig`] records.  It is kept
//! as a vector of entries with pairwise distinct names; its
//! mathematical view is the map from name to record, so contracts do
//! not depend on entry order.  The hardware mapping derived from a
//! configuration is the configuration with every curve cleared: it
//! changes exactly when a sensor or PWM device assignment changes,
//! never on a curve-only edit.

use crate::curve::{powers_at_most, FanStep};
use crate::text::str_eq;
use vstd::prelude::*;

verus! {

/// One fan's configuration: device names used during path resolution,
/// device file paths used at runtime, and the fan curve.
#[derive(Debug)]
pub struct FanConfig {
    pub sensor_name: String,
    pub sensor_input: String,
    pub pwm_name: String,
    pub pwm_input: String,
    pub steps: Vec<FanStep>,
}

/// Mathematical view of a [`FanConfig`].
pub ghost struct FanConfigV {
    pub sensor_name: Seq<char>,
    pub sensor_input: Seq<char>,
    pub pwm_name: Seq<char>,
    pub pwm_input: Seq<char>,
    pub steps: Seq<FanStep>,
}

impl View for FanConfig {
    type V = FanConfigV;

    open spec fn view(&self) -> FanConfigV {
        FanConfigV {
            sensor_name: self.sensor_name@,
            sensor_input: self.sensor_input@,
            pwm_name: self.pwm_name@,
            pwm_input: self.pwm_input@,
            steps: self.steps@,
        }
    }
}

impl FanConfig {
    /// Every breakpoint power is a percentage.
    pub open spec fn wf(self) -> bool {
        powers_at_most(self.steps@, 100)
    }
}

impl Clone for FanConfig {
    fn clone(&self) -> (c: Self)
        ensures
            c@ == self@,
    {
        FanConfig {
            sensor_name: self.sensor_name.clone(),
            sensor_input: self.sensor_input.clone(),
            pwm_name: self.pwm_name.clone(),
            pwm_input: self.pwm_input.clone(),
            steps: copy_steps(&self.steps),
        }
    }
}

/// Copy a curve.
pub fn copy_steps(steps: &Vec<FanStep>) -> (out: Vec<FanStep>)
    ensures
        out@ == steps@,
{
    let mut out: Vec<FanStep> = Vec::new();
    let mut i: usize = 0;
    while i < steps.len()
        invariant
            i <= steps@.len(),
            out@ == steps@.take(i as int),
        decreases steps@.len() - i,
    {
        out.push(steps[i]);
        proof {
            assert(steps@.take(i as int).push(steps@[i as int]) =~= steps@.take(i + 1));
        }
        i += 1;
    }
    proof {
        assert(steps@.take(steps@.len() as int) =~= steps@);
    }
    out
}

/// A named entry of the configuration.
#[derive(Debug)]
pub struct FanEntry {
    pub name: String,
    pub config: FanConfig,
}

impl Clone for FanEntry {
    fn clone(&self) -> (c: Self)
        ensures
            c.name@ == self.name@,
            c.config@ == self.config@,
    {
        FanEntry { name: self.name.clone(), config: self.config.clone() }
    }
}

/// The whole configuration: one entry per fan, names distinct.
#[derive(Debug)]
pub struct Config {
    pub fan: Vec<FanEntry>,
}

/// The map a sequence of entries denotes; later entries win, but a
/// well-formed configuration has distinct names.
pub open spec fn entries_map(es: Seq<FanEntry>) -> Map<Seq<char>, FanConfigV>
    decreases es.len(),
{
    if es.len() == 0 {
        Map::<Seq<char>, FanConfigV>::empty()
    } else {
        entries_map(es.drop_last()).insert(es.last().name@, es.last().config@)
    }
}

/// Pairwise distinct fan names.
pub open spec fn unique_names(es: Seq<FanEntry>) -> bool {
    forall|i: int, j: int| #![trigger es[i], es[j]] 0 <= i < j < es.len() ==> es[i].name@
        != es[j].name@
}

impl View for Config {
    type V = Map<Seq<char>, FanConfigV>;

    open spec fn view(&self) -> Map<Seq<char>, FanConfigV> {
        entries_map(self.fan@)
    }
}

impl Config {
    /// Names are distinct and every fan record is well formed.
    pub open spec fn wf(self) -> bool {
        &&& unique_names(self.fan@)
        &&& forall|i: int| 0 <= i < self.fan@.len() ==> (#[trigger] self.fan@[i]).config.wf()
    }
}

impl Clone for Config {
    fn clone(&self) -> (c: Self)
        ensures
            c@ == self@,
            c.wf() == self.wf(),
    {
        let mut out: Vec<FanEntry> = Vec::new();
        let mut i: usize = 0;
        while i < self.fan.len()
            invariant
                i <= self.fan@.len(),
                out@.len() == i,
                forall|j: int| 0 <= j < i ==> (#[trigger] out@[j]).name@ == self.fan@[j].name@
                    && out@[j].config@ == self.fan@[j].config@,
            decreases self.fan@.len() - i,
        {
            out.push(self.fan[i].clone());
            i += 1;
        }
        proof {
            lemma_entries_map_congruent(out@, self.fan@);
            assert(unique_names(out@) == unique_names(self.fan@));
            if forall|j: int| 0 <= j < self.fan@.len() ==> (#[trigger] self.fan@[j]).config.wf() {
                assert forall|j: int| 0 <= j < out@.len() implies (#[trigger] out@[j]).config.wf() by {
                    assert(self.fan@[j].config.wf());
                    assert(out@[j].config@.steps == self.fan@[j].config@.steps);
                }
            }
            if forall|j: int| 0 <= j < out@.len() ==> (#[trigger] out@[j]).config.wf() {
                assert forall|j: int|
                    0 <= j < self.fan@.len() implies (#[trigger] self.fan@[j]).config.wf() by {
                    assert(out@[j].config.wf());
                    assert(out@[j].config@.steps == self.fan@[j].config@.steps);
                }
            }
        }
        Config { fan: out }
    }
}

/// Entry sequences with the same names and record views denote the
/// same map.
proof fn lemma_entries_map_congruent(es1: Seq<FanEntry>, es2: Seq<FanEntry>)
    requires
        es1.len() == es2.len(),
        forall|i: int| #![trigger es1[i]] 0 <= i < es1.len() ==> es1[i].name@ == es2[i].name@
            && es1[i].config@ == es2[i].config@,
    ensures
        entries_map(es1) == entries_map(es2),
        unique_names(es1) == unique_names(es2),
    decreases es1.len(),
{
    if es1.len() > 0 {
        assert forall|i: int| #![trigger es1.drop_last()[i]]
            0 <= i < es1.drop_last().len() implies es1.drop_last()[i].name@
            == es2.drop_last()[i].name@ && es1.drop_last()[i].config@
            == es2.drop_last()[i].config@ by {
            assert(es1.drop_last()[i] == es1[i]);
            assert(es2.drop_last()[i] == es2[i]);
        }
        lemma_entries_map_congruent(es1.drop_last(), es2.drop_last());
        assert(es1.last() == es1[es1.len() - 1]);
        assert(es2.last() == es2[es2.len() - 1]);
    }
    assert(unique_names(es1) == unique_names(es2)) by {
        if unique_names(es1) {
            assert forall|i: int, j: int| #![trigger es2[i], es2[j]]
                0 <= i < j < es2.len() implies es2[i].name@ != es2[j].name@ by {
                assert(es1[i].name@ != es1[j].name@);
            }
        }
        if unique_names(es2) {
            assert forall|i: int, j: int| #![trigger es1[i], es1[j]]
                0 <= i < j < es1.len() implies es1[i].name@ != es1[j].name@ by {
                assert(es2[i].name@ != es2[j].name@);
            }
        }
    }
}

/// Every entry's name is a key of the map.
proof fn lemma_entries_map_has(es: Seq<FanEntry>, i: int)
    requires
        0 <= i < es.len(),
    ensures
        entries_map(es).contains_key(es[i].name@),
    decreases es.len(),
{
    broadcast use vstd::map::group_map_axioms;

    if i == es.len() - 1 {
        assert(es.last() == es[i]);
    } else {
        assert(es.drop_last()[i] == es[i]);
        lemma_entries_map_has(es.drop_last(), i);
    }
}

/// Every key of the map is some entry's name.
proof fn lemma_entries_map_key_some(es: Seq<FanEntry>, k: Seq<char>)
    requires
        entries_map(es).contains_key(k),
    ensures
        exists|i: int| 0 <= i < es.len() && (#[trigger] es[i]).name@ == k,
    decreases es.len(),
{
    broadcast use vstd::map::group_map_axioms;

    if es.len() > 0 {
        if es.last().name@ == k {
            assert(es[es.len() - 1].name@ == k);
        } else {
            lemma_entries_map_key_some(es.drop_last(), k);
            let i = choose|i: int|
                0 <= i < es.drop_last().len() && (#[trigger] es.drop_last()[i]).name@ == k;
            assert(es[i].name@ == k);
        }
    }
}

/// With distinct names, each entry's name maps to its record.
proof fn lemma_entries_map_index(es: Seq<FanEntry>, i: int)
    requires
        unique_names(es),
        0 <= i < es.len(),
    ensures
        entries_map(es).contains_key(es[i].name@),
        entries_map(es)[es[i].name@] == es[i].config@,
    decreases es.len(),
{
    broadcast use vstd::map::group_map_axioms;

    if i == es.len() - 1 {
        assert(es.last() == es[i]);
    } else {
        assert(es.drop_last()[i] == es[i]);
        assert forall|a: int, b: int| #![trigger es.drop_last()[a], es.drop_last()[b]]
            0 <= a < b < es.drop_last().len() implies es.drop_last()[a].name@
            != es.drop_last()[b].name@ by {
            assert(es.drop_last()[a] == es[a]);
            assert(es.drop_last()[b] == es[b]);
        }
        lemma_entries_map_index(es.drop_last(), i);
        assert(es.last() == es[es.len() - 1]);
        assert(es[i].name@ != es[es.len() - 1].name@);
    }
}

/// With distinct names, the map has one key per entry.
proof fn lemma_entries_map_len(es: Seq<FanEntry>)
    requires
        unique_names(es),
    ensures
        entries_map(es).dom().finite(),
        entries_map(es).len() == es.len(),
    decreases es.len(),
{
    broadcast use vstd::map::group_map_axioms;
    broadcast use vstd::set::group_set_axioms;

    if es.len() == 0 {
        assert(entries_map(es).dom() =~= Set::<Seq<char>>::empty());
    } else {
        assert forall|a: int, b: int| #![trigger es.drop_last()[a], es.drop_last()[b]]
            0 <= a < b < es.drop_last().len() implies es.drop_last()[a].name@
            != es.drop_last()[b].name@ by {
            assert(es.drop_last()[a] == es[a]);
            assert(es.drop_last()[b] == es[b]);
        }
        lemma_entries_map_len(es.drop_last());
        if entries_map(es.drop_last()).contains_key(es.last().name@) {
            lemma_entries_map_key_some(es.drop_last(), es.last().name@);
            let i = choose|i: int|
                0 <= i < es.drop_last().len() && (#[trigger] es.drop_last()[i]).name@
                    == es.last().name@;
            assert(es[i].name@ == es[es.len() - 1].name@);
            assert(false);
        }
    }
}

impl Config {
    /// Index of the entry holding `name`, if any.
    fn find_fan_index(&self, name: &str) -> (r: Option<usize>)
        ensures
            match r {
                Some(i) => i < self.fan@.len() && self.fan@[i as int].name@ == name@,
                None => forall|j: int|
                    0 <= j < self.fan@.len() ==> (#[trigger] self.fan@[j]).name@ != name@,
            },
    {
        let mut i: usize = 0;
        while i < self.fan.len()
            invariant
                i <= self.fan@.len(),
                forall|j: int| 0 <= j < i ==> (#[trigger] self.fan@[j]).name@ != name@,
            decreases self.fan@.len() - i,
        {
            if str_eq(self.fan[i].name.as_str(), name) {
                return Some(i);
            }
            i += 1;
        }
        None
    }

    /// Look a fan up by name.
    pub fn get_fan(&self, name: &str) -> (r: Option<&FanConfig>)
        requires
            self.wf(),
        ensures
            match r {
                Some(f) => self@.contains_key(name@) && self@[name@] == f@,
                None => !self@.contains_key(name@),
            },
    {
        match self.find_fan_index(name) {
            Some(i) => {
                proof {
                    lemma_entries_map_index(self.fan@, i as int);
                }
                Some(&self.fan[i].config)
            },
            None => {
                proof {
                    if self@.contains_key(name@) {
                        lemma_entries_map_key_some(self.fan@, name@);
                    }
                }
                None
            },
        }
    }

    /// Insert a fan record under a name, replacing any previous record
    /// under that name.
    pub fn insert_fan(&mut self, name: String, f: FanConfig)
        requires
            old(self).wf(),
            f.wf(),
        ensures
            final(self).wf(),
            final(self)@ == old(self)@.insert(name@, f@),
    {
        broadcast use vstd::map::group_map_axioms;

        let ghost es = self.fan@;
        let found = self.find_fan_index(name.as_str());
        let e = FanEntry { name, config: f };
        match found {
            Some(i) => {
                let _old_entry = self.fan.remove(i);
                self.fan.insert(i, e);
                proof {
                    assert(self.fan@ =~= es.update(i as int, e));
                    lemma_entries_map_update(es, i as int, e);
                    lemma_unique_after_update(es, i as int, e);
                    assert forall|j: int|
                        0 <= j < self.fan@.len() implies (#[trigger] self.fan@[j]).config.wf() by {
                        if j != i {
                            assert(self.fan@[j] == es[j]);
                        }
                    }
                }
            },
            None => {
                self.fan.push(e);
                proof {
                    assert(self.fan@.drop_last() =~= es);
                    assert(self.fan@.last() == e);
                    assert forall|a: int, b: int| #![trigger self.fan@[a], self.fan@[b]]
                        0 <= a < b < self.fan@.len() implies self.fan@[a].name@
                        != self.fan@[b].name@ by {
                        assert(self.fan@[a] == es[a]);
                        if b < self.fan@.len() - 1 {
                            assert(self.fan@[b] == es[b]);
                        } else {
                            assert(self.fan@[b] == e);
                        }
                    }
                    assert forall|j: int|
                        0 <= j < self.fan@.len() implies (#[trigger] self.fan@[j]).config.wf() by {
                        if j < self.fan@.len() - 1 {
                            assert(self.fan@[j] == es[j]);
                        }
                    }
                }
            },
        }
    }

    /// Remove a fan by name; report whether it was there.
    pub fn remove_fan(&mut self, name: &str) -> (found: bool)
        requires
            old(self).wf(),
        ensures
            final(self).wf(),
            found == old(self)@.contains_key(name@),
            final(self)@ == old(self)@.remove(name@),
    {
        broadcast use vstd::map::group_map_axioms;

        let ghost es = self.fan@;
        match self.find_fan_index(name) {
            Some(i) => {
                let _removed = self.fan.remove(i);
                proof {
                    lemma_entries_map_has(es, i as int);
                    lemma_entries_map_remove(es, i as int);
                    assert forall|a: int, b: int| #![trigger self.fan@[a], self.fan@[b]]
                        0 <= a < b < self.fan@.len() implies self.fan@[a].name@
                        != self.fan@[b].name@ by {
                        let a0 = if a < i { a } else { a + 1 };
                        let b0 = if b < i { b } else { b + 1 };
                        assert(self.fan@[a] == es[a0] && self.fan@[b] == es[b0]);
                        assert(es[a0].name@ != es[b0].name@);
                    }
                    assert forall|j: int|
                        0 <= j < self.fan@.len() implies (#[trigger] self.fan@[j]).config.wf() by {
                        let j0 = if j < i { j } else { j + 1 };
                        assert(self.fan@[j] == es[j0]);
                    }
                }
                true
            },
            None => {
                proof {
                    if self@.contains_key(name@) {
                        lemma_entries_map_key_some(es, name@);
                    }
                    assert(self@ =~= old(self)@.remove(name@));
                }
                false
            },
        }
    }

    /// Replace the curve of the named fan; report whether it exists.
    /// Nothing else changes.
    pub fn set_fan_steps(&mut self, name: &str, steps: Vec<FanStep>) -> (found: bool)
        requires
            old(self).wf(),
            powers_at_most(steps@, 100),
        ensures
            final(self).wf(),
            found == old(self)@.contains_key(name@),
            found ==> final(self)@ == old(self)@.insert(
                name@,
                (FanConfigV { steps: steps@, ..old(self)@[name@] }),
            ),
            !found ==> final(self)@ == old(self)@,
    {
        broadcast use vstd::map::group_map_axioms;

        let ghost es = self.fan@;
        match self.find_fan_index(name) {
            Some(i) => {
                let old_entry = self.fan.remove(i);
                let e = FanEntry {
                    name: old_entry.name,
                    config: FanConfig {
                        sensor_name: old_entry.config.sensor_name,
                        sensor_input: old_entry.config.sensor_input,
                        pwm_name: old_entry.config.pwm_name,
                        pwm_input: old_entry.config.pwm_input,
                        steps,
                    },
                };
                self.fan.insert(i, e);
                proof {
                    assert(self.fan@ =~= es.update(i as int, e));
                    lemma_entries_map_has(es, i as int);
                    lemma_entries_map_index(es, i as int);
                    lemma_entries_map_update(es, i as int, e);
                    assert(e.config@ == (FanConfigV { steps: steps@, ..old(self)@[name@] }));
                    lemma_unique_after_update(es, i as int, e);
                    assert forall|j: int|
                        0 <= j < self.fan@.len() implies (#[trigger] self.fan@[j]).config.wf() by {
                        if j != i {
                            assert(self.fan@[j] == es[j]);
                        }
                    }
                }
                true
            },
            None => {
                proof {
                    if self@.contains_key(name@) {
                        lemma_entries_map_key_some(es, name@);
                    }
                }
                false
            },
        }
    }

    /// Add a fan under a generated fresh name: `fan_k` for the least
    /// `k` whose name is not yet in use.  Nothing already configured
    /// is touched.
    pub fn add_fan(&mut self, f: FanConfig) -> (name: String)
        requires
            old(self).wf(),
            f.wf(),
            old(self).fan@.len() < 0xffff_ffff,
        ensures
            final(self).wf(),
            !old(self)@.contains_key(name@),
            final(self)@ == old(self)@.insert(name@, f@),
            (exists|k: int| #![trigger fan_name_spec(k as nat)]
                1 <= k && name@ == fan_name_spec(k as nat) && (forall|j: int|
                    1 <= j < k ==> old(self)@.contains_key(#[trigger] fan_name_spec(j as nat)))),
    {
        let k = self.fresh_fan_index();
        let name = make_fan_name(k);
        let out = name.clone();
        self.insert_fan(name, f);
        proof {
            let ki: int = k as int;
            assert(out@ == fan_name_spec(ki as nat));
            assert(1 <= ki && out@ == fan_name_spec(ki as nat) && (forall|j: int|
                1 <= j < ki ==> old(self)@.contains_key(#[trigger] fan_name_spec(j as nat))));
        }
        out
    }

    /// The least `k` such that no fan is named `fan_k` yet.
    fn fresh_fan_index(&self) -> (k: u64)
        requires
            self.wf(),
            self.fan@.len() < 0xffff_ffff,
        ensures
            1 <= k,
            !self@.contains_key(fan_name_spec(k as nat)),
            forall|j: int| 1 <= j < k ==> self@.contains_key(#[trigger] fan_name_spec(j as nat)),
    {
        broadcast use vstd::map::group_map_axioms;
        broadcast use vstd::set::group_set_axioms;

        let n = self.fan.len() as u64;
        let mut k: u64 = 1;
        loop
            invariant
                self.wf(),
                n == self.fan@.len(),
                n < 0xffff_ffff,
                1 <= k <= n + 1,
                forall|j: int| 1 <= j < k ==> self@.contains_key(
                    #[trigger] fan_name_spec(j as nat),
                ),
            decreases n + 1 - k,
        {
            let candidate = make_fan_name(k);
            if self.get_fan(candidate.as_str()).is_none() {
                return k;
            }
            proof {
                if k == n + 1 {
                    lemma_names_upto((n + 1) as nat);
                    lemma_entries_map_len(self.fan@);
                    assert forall|x: Seq<char>| names_upto((n + 1) as nat).contains(
                        x,
                    ) implies self@.dom().contains(x) by {
                        let j = choose|j: int|
                            #![trigger fan_name_spec(j as nat)]
                            1 <= j <= n + 1 && x == fan_name_spec(j as nat);
                        if j < k {
                            assert(self@.contains_key(fan_name_spec(j as nat)));
                        } else {
                            assert(j == k as int);
                            assert(self@.contains_key(fan_name_spec(k as nat)));
                        }
                    }
                    assert(names_upto((n + 1) as nat) <= self@.dom());
                    vstd::set_lib::lemma_len_subset(names_upto((n + 1) as nat), self@.dom());
                    assert(false);
                }
            }
            k += 1;
        }
    }
}

/// The generated name of the `k`-th fan slot.
pub open spec fn fan_name_spec(k: nat) -> Seq<char> {
    "fan_"@ + crate::text::dec_str(k)
}

/// Render [`fan_name_spec`].
pub fn make_fan_name(k: u64) -> (s: String)
    ensures
        s@ == fan_name_spec(k as nat),
{
    proof {
        reveal_strlit("fan_");
    }
    let mut s = String::from_str("fan_");
    crate::text::append_dec_u64(&mut s, k);
    s
}

/// Distinct slot numbers have distinct generated names.
proof fn lemma_fan_name_injective(a: nat, b: nat)
    requires
        fan_name_spec(a) == fan_name_spec(b),
    ensures
        a == b,
{
    reveal_strlit("fan_");
    crate::text::lemma_dec_str_value(a);
    crate::text::lemma_dec_str_value(b);
    let p = "fan_"@;
    assert((p + crate::text::dec_str(a)).skip(p.len() as int) =~= crate::text::dec_str(a));
    assert((p + crate::text::dec_str(b)).skip(p.len() as int) =~= crate::text::dec_str(b));
    assert(crate::text::dec_str(a) == crate::text::dec_str(b));
}

/// The generated names of slots `1..=m`.
spec fn names_upto(m: nat) -> Set<Seq<char>>
    decreases m,
{
    if m == 0 {
        Set::<Seq<char>>::empty()
    } else {
        names_upto((m - 1) as nat).insert(fan_name_spec(m))
    }
}

/// `names_upto(m)` holds exactly the `m` pairwise distinct generated
/// names of the first `m` slots.
proof fn lemma_names_upto(m: nat)
    ensures
        names_upto(m).finite(),
        names_upto(m).len() == m,
        forall|x: Seq<char>| names_upto(m).contains(x) <==> (exists|j: int|
            #![trigger fan_name_spec(j as nat)]
            1 <= j <= m && x == fan_name_spec(j as nat)),
    decreases m,
{
    broadcast use vstd::set::group_set_axioms;

    if m == 0 {
    } else {
        lemma_names_upto((m - 1) as nat);
        if names_upto((m - 1) as nat).contains(fan_name_spec(m)) {
            let j = choose|j: int|
                #![trigger fan_name_spec(j as nat)]
                1 <= j <= m - 1 && fan_name_spec(m) == fan_name_spec(j as nat);
            lemma_fan_name_injective(m, j as nat);
            assert(false);
        }
        assert forall|x: Seq<char>| names_upto(m).contains(x) implies (exists|j: int|
            #![trigger fan_name_spec(j as nat)]
            1 <= j <= m && x == fan_name_spec(j as nat)) by {
            if x == fan_name_spec(m) {
                let w: int = m as int;
                assert(1 <= w <= m && x == fan_name_spec(w as nat));
            } else {
                assert(names_upto((m - 1) as nat).contains(x));
                let j = choose|j: int|
                    #![trigger fan_name_spec(j as nat)]
                    1 <= j <= m - 1 && x == fan_name_spec(j as nat);
                assert(1 <= j <= m && x == fan_name_spec(j as nat));
            }
        }
        assert forall|x: Seq<char>| (exists|j: int|
            #![trigger fan_name_spec(j as nat)]
            1 <= j <= m && x == fan_name_spec(j as nat)) implies names_upto(m).contains(x) by {
            let j = choose|j: int|
                #![trigger fan_name_spec(j as nat)]
                1 <= j <= m && x == fan_name_spec(j as nat);
            if j <= m - 1 {
                assert(names_upto((m - 1) as nat).contains(x));
            } else {
                assert(x == fan_name_spec(m));
            }
        }
    }
}

/// An update whose entry keeps its name keeps names distinct.
proof fn lemma_unique_after_update(es: Seq<FanEntry>, i: int, e: FanEntry)
    requires
        unique_names(es),
        0 <= i < es.len(),
        e.name@ == es[i].name@,
    ensures
        unique_names(es.update(i, e)),
{
    let es2 = es.update(i, e);
    assert forall|a: int, b: int| #![trigger es2[a], es2[b]]
        0 <= a < b < es2.len() implies es2[a].name@ != es2[b].name@ by {
        if a != i && b != i {
            assert(es2[a] == es[a] && es2[b] == es[b]);
        } else if a == i {
            assert(es2[b] == es[b]);
            assert(es[i].name@ != es[b].name@);
        } else {
            assert(es2[a] == es[a]);
            assert(es[a].name@ != es[i].name@);
        }
    }
}

impl Config {
    /// Decide [`Config::wf`]: names pairwise distinct, every power a
    /// percentage.  Callers that build a configuration from outside
    /// data check it with this before handing it to the library.
    pub fn is_wf(&self) -> (r: bool)
        ensures
            r == self.wf(),
    {
        let n = self.fan.len();
        let mut i: usize = 0;
        while i < n
            invariant
                i <= n,
                n == self.fan@.len(),
                forall|a: int, b: int| #![trigger self.fan@[a], self.fan@[b]]
                    0 <= a < b < i ==> self.fan@[a].name@ != self.fan@[b].name@,
                forall|a: int| 0 <= a < i ==> (#[trigger] self.fan@[a]).config.wf(),
            decreases n - i,
        {
            let mut j: usize = 0;
            while j < i
                invariant
                    j <= i < n,
                    n == self.fan@.len(),
                    forall|b: int| 0 <= b < j ==> (#[trigger] self.fan@[b]).name@
                        != self.fan@[i as int].name@,
                decreases i - j,
            {
                if str_eq(self.fan[j].name.as_str(), self.fan[i].name.as_str()) {
                    return false;
                }
                j += 1;
            }
            let steps = &self.fan[i].config.steps;
            let mut k: usize = 0;
            while k < steps.len()
                invariant
                    k <= steps@.len(),
                    steps@ == self.fan@[i as int].config.steps@,
                    n == self.fan@.len(),
                    i < n,
                    forall|m: int| 0 <= m < k ==> (#[trigger] steps@[m]).power as int <= 100,
                decreases steps@.len() - k,
            {
                if steps[k].power > 100 {
                    return false;
                }
                k += 1;
            }
            i += 1;
        }
        proof {
            assert(unique_names(self.fan@));
        }
        true
    }
}

/// Replacing an entry replaces its key's record.
proof fn lemma_entries_map_update(es: Seq<FanEntry>, i: int, e: FanEntry)
    requires
        unique_names(es),
        0 <= i < es.len(),
        e.name@ == es[i].name@,
    ensures
        entries_map(es.update(i, e)) == entries_map(es).insert(e.name@, e.config@),
    decreases es.len(),
{
    broadcast use vstd::map::group_map_axioms;

    let es2 = es.update(i, e);
    if i == es.len() - 1 {
        assert(es2.drop_last() =~= es.drop_last());
        assert(es2.last() == e);
        assert(entries_map(es2) == entries_map(es.drop_last()).insert(e.name@, e.config@));
        assert(entries_map(es) == entries_map(es.drop_last()).insert(
            es.last().name@,
            es.last().config@,
        ));
        assert(entries_map(es).insert(e.name@, e.config@) =~= entries_map(es.drop_last()).insert(
            e.name@,
            e.config@,
        ));
    } else {
        assert forall|a: int, b: int| #![trigger es.drop_last()[a], es.drop_last()[b]]
            0 <= a < b < es.drop_last().len() implies es.drop_last()[a].name@
            != es.drop_last()[b].name@ by {
            assert(es.drop_last()[a] == es[a]);
            assert(es.drop_last()[b] == es[b]);
        }
        assert(es.drop_last()[i] == es[i]);
        lemma_entries_map_update(es.drop_last(), i, e);
        assert(es2.drop_last() =~= es.drop_last().update(i, e));
        assert(es2.last() == es.last());
        assert(es[i].name@ != es[es.len() - 1].name@);
        assert(entries_map(es2) == entries_map(es.drop_last()).insert(
            e.name@,
            e.config@,
        ).insert(es.last().name@, es.last().config@));
        assert(entries_map(es.drop_last()).insert(e.name@, e.config@).insert(
            es.last().name@,
            es.last().config@,
        ) =~= entries_map(es.drop_last()).insert(es.last().name@, es.last().config@).insert(
            e.name@,
            e.config@,
        ));
    }
}

/// Removing an entry removes its key.
proof fn lemma_entries_map_remove(es: Seq<FanEntry>, i: int)
    requires
        unique_names(es),
        0 <= i < es.len(),
    ensures
        entries_map(es.remove(i)) == entries_map(es).remove(es[i].name@),
    decreases es.len(),
{
    broadcast use vstd::map::group_map_axioms;

    let es2 = es.remove(i);
    if i == es.len() - 1 {
        assert(es2 =~= es.drop_last());
        if entries_map(es.drop_last()).contains_key(es[i].name@) {
            lemma_entries_map_key_some(es.drop_last(), es[i].name@);
            let j = choose|j: int|
                0 <= j < es.drop_last().len() && (#[trigger] es.drop_last()[j]).name@
                    == es[i].name@;
            assert(es[j].name@ == es[i].name@);
            assert(false);
        }
        assert(entries_map(es.remove(i)) =~= entries_map(es).remove(es[i].name@));
    } else {
        assert forall|a: int, b: int| #![trigger es.drop_last()[a], es.drop_last()[b]]
            0 <= a < b < es.drop_last().len() implies es.drop_last()[a].name@
            != es.drop_last()[b].name@ by {
            assert(es.drop_last()[a] == es[a]);
            assert(es.drop_last()[b] == es[b]);
        }
        assert(es.drop_last()[i] == es[i]);
        lemma_entries_map_remove(es.drop_last(), i);
        assert(es2.drop_last() =~= es.drop_last().remove(i));
        assert(es2.last() == es.last());
        assert(es[i].name@ != es[es.len() - 1].name@);
        assert(entries_map(es2) == entries_map(es.drop_last()).remove(es[i].name@).insert(
            es.last().name@,
            es.last().config@,
        ));
        assert(entries_map(es.drop_last()).remove(es[i].name@).insert(
            es.last().name@,
            es.last().config@,
        ) =~= entries_map(es.drop_last()).insert(es.last().name@, es.last().config@).remove(
            es[i].name@,
        ));
    }
}

/// Entry sequences whose records are the image of another sequence's
/// records denote the image map.
pub proof fn lemma_entries_map_mapped(
    es1: Seq<FanEntry>,
    es2: Seq<FanEntry>,
    g: spec_fn(FanConfigV) -> FanConfigV,
)
    requires
        es1.len() == es2.len(),
        forall|i: int| #![trigger es2[i]] 0 <= i < es1.len() ==> es2[i].name@ == es1[i].name@
            && es2[i].config@ == g(es1[i].config@),
    ensures
        entries_map(es2) == entries_map(es1).map_values(g),
    decreases es1.len(),
{
    broadcast use vstd::map::group_map_axioms;

    if es1.len() == 0 {
        assert(entries_map(es2) =~= entries_map(es1).map_values(g));
    } else {
        assert forall|i: int| #![trigger es2.drop_last()[i]]
            0 <= i < es1.drop_last().len() implies es2.drop_last()[i].name@
            == es1.drop_last()[i].name@ && es2.drop_last()[i].config@ == g(
            es1.drop_last()[i].config@,
        ) by {
            assert(es1.drop_last()[i] == es1[i]);
            assert(es2.drop_last()[i] == es2[i]);
        }
        lemma_entries_map_mapped(es1.drop_last(), es2.drop_last(), g);
        assert(es1.last() == es1[es1.len() - 1]);
        assert(es2.last() == es2[es2.len() - 1]);
        assert(entries_map(es2) == entries_map(es1.drop_last()).map_values(g).insert(
            es1.last().name@,
            g(es1.last().config@),
        ));
        assert(entries_map(es1.drop_last()).map_values(g).insert(
            es1.last().name@,
            g(es1.last().config@),
        ) =~= entries_map(es1).map_values(g));
    }
}

/// A fan record's hardware assignment: the record with its curve
/// cleared.
pub open spec fn hw_of(f: FanConfigV) -> FanConfigV {
    FanConfigV { steps: Seq::<FanStep>::empty(), ..f }
}

/// The hardware mapping a configuration denotes: every fan's device
/// assignment, with all curves cleared.
pub open spec fn hw_map_of(m: Map<Seq<char>, FanConfigV>) -> Map<Seq<char>, FanConfigV> {
    m.map_values(|f: FanConfigV| hw_of(f))
}

/// Derive the hardware mapping of a configuration.  Two
/// configurations need re-initialization between them exactly when
/// these derived mappings differ.
pub fn extract_hw_map(c: &Config) -> (h: Config)
    requires
        c.wf(),
    ensures
        h.wf(),
        h@ == hw_map_of(c@),
{
    let mut out: Vec<FanEntry> = Vec::new();
    let mut i: usize = 0;
    while i < c.fan.len()
        invariant
            i <= c.fan@.len(),
            out@.len() == i,
            forall|j: int| #![trigger out@[j]] 0 <= j < i ==> out@[j].name@ == c.fan@[j].name@
                && out@[j].config@ == hw_of(c.fan@[j].config@),
        decreases c.fan@.len() - i,
    {
        let e = &c.fan[i];
        let he = FanEntry {
            name: e.name.clone(),
            config: FanConfig {
                sensor_name: e.config.sensor_name.clone(),
                sensor_input: e.config.sensor_input.clone(),
                pwm_name: e.config.pwm_name.clone(),
                pwm_input: e.config.pwm_input.clone(),
                steps: Vec::new(),
            },
        };
        out.push(he);
        i += 1;
    }
    proof {
        lemma_entries_map_mapped(c.fan@, out@, |f: FanConfigV| hw_of(f));
        assert forall|a: int, b: int| #![trigger out@[a], out@[b]]
            0 <= a < b < out@.len() implies out@[a].name@ != out@[b].name@ by {
            assert(c.fan@[a].name@ != c.fan@[b].name@);
        }
        assert forall|j: int| 0 <= j < out@.len() implies (#[trigger] out@[j]).config.wf() by {
            assert(out@[j].config@.steps.len() == 0);
        }
    }
    Config { fan: out }
}

/// Compare two curves.
pub fn steps_eq(a: &Vec<FanStep>, b: &Vec<FanStep>) -> (r: bool)
    ensures
        r == (a@ == b@),
{
    if a.len() != b.len() {
        return false;
    }
    let mut i: usize = 0;
    while i < a.len()
        invariant
            i <= a@.len(),
            a@.len() == b@.len(),
            forall|j: int| 0 <= j < i ==> a@[j] == b@[j],
        decreases a@.len() - i,
    {
        let x = a[i];
        let y = b[i];
        if !(x.temp == y.temp && x.power == y.power) {
            return false;
        }
        i += 1;
    }
    proof {
        assert(a@ =~= b@);
    }
    true
}

/// Compare two fan records.
pub fn fan_config_eq(a: &FanConfig, b: &FanConfig) -> (r: bool)
    ensures
        r == (a@ == b@),
{
    let r = a.sensor_name == b.sensor_name && a.sensor_input == b.sensor_input && a.pwm_name
        == b.pwm_name && a.pwm_input == b.pwm_input && steps_eq(&a.steps, &b.steps);
    proof {
        if r {
            assert(a@ =~= b@);
        }
    }
    r
}

/// Compare two configurations as maps: equal exactly when they hold
/// the same fans under the same names.
pub fn config_eq(a: &Config, b: &Config) -> (r: bool)
    requires
        a.wf(),
        b.wf(),
    ensures
        r == (a@ == b@),
{
    broadcast use vstd::map::group_map_axioms;
    broadcast use vstd::set::group_set_axioms;

    if a.fan.len() != b.fan.len() {
        proof {
            lemma_entries_map_len(a.fan@);
            lemma_entries_map_len(b.fan@);
        }
        return false;
    }
    let mut i: usize = 0;
    while i < a.fan.len()
        invariant
            a.wf(),
            b.wf(),
            i <= a.fan@.len(),
            a.fan@.len() == b.fan@.len(),
            forall|j: int| #![trigger a.fan@[j]] 0 <= j < i ==> b@.contains_key(a.fan@[j].name@)
                && b@[a.fan@[j].name@] == a.fan@[j].config@,
        decreases a.fan@.len() - i,
    {
        let e = &a.fan[i];
        proof {
            lemma_entries_map_index(a.fan@, i as int);
        }
        match b.get_fan(e.name.as_str()) {
            None => {
                proof {
                    lemma_entries_map_has(a.fan@, i as int);
                }
                return false;
            },
            Some(fb) => {
                if !fan_config_eq(&e.config, fb) {
                    return false;
                }
            },
        }
        i += 1;
    }
    proof {
        lemma_entries_map_len(a.fan@);
        lemma_entries_map_len(b.fan@);
        assert forall|k: Seq<char>| #[trigger] a@.contains_key(k) implies b@.contains_key(k)
            && b@[k] == a@[k] by {
            lemma_entries_map_key_some(a.fan@, k);
            let j = choose|j: int| 0 <= j < a.fan@.len() && (#[trigger] a.fan@[j]).name@ == k;
            lemma_entries_map_index(a.fan@, j);
        }
        assert(a@.dom() <= b@.dom());
        if !b@.dom().subset_of(a@.dom()) {
            let k = choose|k: Seq<char>| b@.dom().contains(k) && !a@.dom().contains(k);
            assert(a@.dom() <= b@.dom().remove(k));
            vstd::set_lib::lemma_len_subset(a@.dom(), b@.dom().remove(k));
            assert(false);
        }
        assert(a@ =~= b@);
    }
    true
}

/// A curve-only edit leaves the hardware mapping unchanged.
pub proof fn lemma_curve_edit_keeps_mapping(
    m1: Map<Seq<char>, FanConfigV>,
    m2: Map<Seq<char>, FanConfigV>,
)
    requires
        m1.dom() == m2.dom(),
        forall|k: Seq<char>| #[trigger] m1.contains_key(k) ==> m2[k] == (FanConfigV {
            steps: m2[k].steps,
            ..m1[k]
        }),
    ensures
        hw_map_of(m1) == hw_map_of(m2),
{
    broadcast use vstd::map::group_map_axioms;

    assert forall|k: Seq<char>| #[trigger] hw_map_of(m1).contains_key(k) implies hw_map_of(m1)[k]
        == hw_map_of(m2)[k] by {
        assert(m1.contains_key(k));
        assert(hw_of(m1[k]) == hw_of(m2[k]));
    }
    assert(hw_map_of(m1) =~= hw_map_of(m2));
}

/// An edit that touches any device assignment changes the hardware
/// mapping.
pub proof fn lemma_mapping_edit_detected(
    m1: Map<Seq<char>, FanConfigV>,
    m2: Map<Seq<char>, FanConfigV>,
    k: Seq<char>,
)
    requires
        m1.contains_key(k),
        m2.contains_key(k),
        hw_of(m1[k]) != hw_of(m2[k]),
    ensures
        hw_map_of(m1) != hw_map_of(m2),
{
    broadcast use vstd::map::group_map_axioms;

    assert(hw_map_of(m1)[k] == hw_of(m1[k]));
    assert(hw_map_of(m2)[k] == hw_of(m2[k]));
}

} // verus!
