//! The task side: the output lines owned by the consumer, keyed by the
//! selector bit that drives each of them, with their current levels.
//!
//! Lookup goes through a small fixed-capacity linear map. A selector bit with
//! no entry resolves to nothing and changes nothing.
use vstd::prelude::*;

use heapless::LinearMap;

use crate::event::InEvent;
use crate::input::selects;

verus! {

/// Most output lines a bank holds.
pub const MAX_OUTPUTS: usize = 8;

#[verifier::external_type_specification]
#[verifier::external_body]
#[verifier::reject_recursive_types(K)]
#[verifier::reject_recursive_types(V)]
pub struct ExLinearMap<K, V, const N: usize>(heapless::LinearMap<K, V, N>);

/// Levels of output lines keyed by selector bit, in insertion order.
pub type LevelMap = LinearMap<u8, bool, 8>;

/// What inserting into a `LevelMap` returns.
type InsertOutcome = Result<Option<bool>, (u8, bool)>;

/// The key/value pairs a linear map holds.
pub uninterp spec fn linear_map_entries(m: LevelMap) -> Map<u8, bool>;

/// Relies on heapless::LinearMap::new: the map starts with no entries.
#[verifier::external_body]
fn map_new() -> (r: LevelMap)
    ensures
        linear_map_entries(r).dom() == Set::<u8>::empty(),
{
    LinearMap::new()
}

/// Relies on heapless::LinearMap::get: the value stored under the key, if any.
#[verifier::external_body]
fn map_get(m: &LevelMap, k: u8) -> (r: Option<bool>)
    ensures
        linear_map_entries(*m).contains_key(k) ==> r == Some(linear_map_entries(*m)[k]),
        !linear_map_entries(*m).contains_key(k) ==> r is None,
{
    m.get(&k).copied()
}

/// Relies on heapless::LinearMap::insert: a present key has its value replaced
/// and the old one returned; a new key is appended while fewer than 8 entries
/// are held; otherwise the pair comes back and the map is unchanged.
#[verifier::external_body]
fn map_insert(m: &mut LevelMap, k: u8, v: bool) -> (r: InsertOutcome)
    ensures
        linear_map_entries(*old(m)).contains_key(k) ==> r == InsertOutcome::Ok(
            Some(linear_map_entries(*old(m))[k]),
        ) && linear_map_entries(*final(m)) == linear_map_entries(*old(m)).insert(k, v),
        !linear_map_entries(*old(m)).contains_key(k) && linear_map_entries(*old(m)).dom().len() < 8
            ==> r == InsertOutcome::Ok(None) && linear_map_entries(*final(m))
            == linear_map_entries(*old(m)).insert(k, v),
        !linear_map_entries(*old(m)).contains_key(k) && linear_map_entries(*old(m)).dom().len() >= 8
            ==> r == InsertOutcome::Err((k, v)) && linear_map_entries(*final(m))
            == linear_map_entries(*old(m)),
{
    m.insert(k, v)
}

} // verus!

verus! {

/// Every key of `keys` mapped to a low level.
pub open spec fn all_low(keys: Seq<u8>) -> Map<u8, bool> {
    Map::new(|k: u8| keys.contains(k), |k: u8| false)
}

/// `m` with the level under `k` inverted; unchanged when `k` has no entry.
pub open spec fn toggled(m: Map<u8, bool>, k: u8) -> Map<u8, bool> {
    if m.contains_key(k) {
        m.insert(k, !m[k])
    } else {
        m
    }
}

/// `m` with every line whose key bit is set in `sel` inverted.
pub open spec fn apply_selector(m: Map<u8, bool>, sel: u32) -> Map<u8, bool> {
    Map::new(
        |k: u8| m.contains_key(k),
        |k: u8|
            if selects(sel, k) {
                !m[k]
            } else {
                m[k]
            },
    )
}

/// The keys below `n` that have an entry in `m` and whose bit is set in
/// `sel`, ascending.
pub open spec fn resolved(m: Map<u8, bool>, sel: u32, n: nat) -> Seq<u8>
    decreases n,
{
    if n == 0 {
        Seq::empty()
    } else {
        let k = (n - 1) as u8;
        let prev = resolved(m, sel, (n - 1) as nat);
        if m.contains_key(k) && selects(sel, k) {
            prev.push(k)
        } else {
            prev
        }
    }
}

/// Toggling the same line twice restores every level.
pub proof fn lemma_toggle_twice(m: Map<u8, bool>, k: u8)
    ensures
        toggled(toggled(m, k), k) == m,
{
    if m.contains_key(k) {
        assert(toggled(toggled(m, k), k) =~= m);
    }
}

/// Applying the same selector twice restores every level.
pub proof fn lemma_apply_twice(m: Map<u8, bool>, sel: u32)
    ensures
        apply_selector(apply_selector(m, sel), sel) == m,
{
    assert(apply_selector(apply_selector(m, sel), sel) =~= m);
}

proof fn lemma_resolved_none(m: Map<u8, bool>, sel: u32, n: nat)
    requires
        n <= 32,
        forall|k: u8| m.contains_key(k) ==> !selects(sel, k),
    ensures
        resolved(m, sel, n) == Seq::<u8>::empty(),
    decreases n,
{
    if n > 0 {
        lemma_resolved_none(m, sel, (n - 1) as nat);
    }
}

/// A selector that names no line of `m` resolves to no line and leaves every
/// level as it was.
pub proof fn lemma_unresolved_selector(m: Map<u8, bool>, sel: u32)
    requires
        forall|k: u8| m.contains_key(k) ==> !selects(sel, k),
    ensures
        apply_selector(m, sel) == m,
        resolved(m, sel, 32) == Seq::<u8>::empty(),
{
    assert(apply_selector(m, sel) =~= m);
    lemma_resolved_none(m, sel, 32);
}

/// The output lines owned by the consumer task and their levels.
pub struct OutputBank {
    lines: LevelMap,
}

impl View for OutputBank {
    type V = Map<u8, bool>;

    /// Level of each line (true = high), keyed by the selector bit driving it.
    closed spec fn view(&self) -> Map<u8, bool> {
        linear_map_entries(self.lines)
    }
}

impl OutputBank {
    pub closed spec fn wf(&self) -> bool {
        self@.dom().finite() && self@.dom().len() <= MAX_OUTPUTS
    }

    /// A bank with one line, at low level, for each key of `keys`.
    pub fn new(keys: &Vec<u8>) -> (r: OutputBank)
        requires
            keys@.len() <= MAX_OUTPUTS,
        ensures
            r.wf(),
            r@ == all_low(keys@),
    {
        let mut lines = map_new();
        let mut i: usize = 0;
        assert(linear_map_entries(lines) =~= all_low(keys@.take(0)));
        while i < keys.len()
            invariant
                i <= keys@.len(),
                keys@.len() <= MAX_OUTPUTS,
                linear_map_entries(lines) == all_low(keys@.take(i as int)),
                linear_map_entries(lines).dom().finite(),
                linear_map_entries(lines).dom().len() <= i,
            decreases keys@.len() - i,
        {
            let k = keys[i];
            let _ = map_insert(&mut lines, k, false);
            let ghost s0 = keys@.take(i as int);
            let ghost s1 = keys@.take(i as int + 1);
            assert forall|x: u8| s1.contains(x) == (s0.contains(x) || x == k) by {
                if s0.contains(x) {
                    let j = choose|j: int| 0 <= j < s0.len() && s0[j] == x;
                    assert(s1[j] == x);
                }
                if x == k {
                    assert(s1[i as int] == x);
                }
                if s1.contains(x) {
                    let j = choose|j: int| 0 <= j < s1.len() && s1[j] == x;
                    if j < i {
                        assert(s0[j] == x);
                    }
                }
            }
            assert(all_low(s1) =~= all_low(s0).insert(k, false));
            i = i + 1;
        }
        assert(keys@.take(i as int) =~= keys@);
        OutputBank { lines }
    }

    /// Current level of the line keyed `k`, or `None` when there is no such line.
    pub fn level(&self, k: u8) -> (r: Option<bool>)
        ensures
            self@.contains_key(k) ==> r == Some(self@[k]),
            !self@.contains_key(k) ==> r is None,
    {
        map_get(&self.lines, k)
    }

    /// Inverts the level of the line keyed `k`, if there is one; returns
    /// whether there was.
    pub fn toggle(&mut self, k: u8) -> (r: bool)
        requires
            old(self).wf(),
        ensures
            final(self).wf(),
            final(self)@ == toggled(old(self)@, k),
            r == old(self)@.contains_key(k),
    {
        match map_get(&self.lines, k) {
            Some(v) => {
                let _ = map_insert(&mut self.lines, k, !v);
                assert(self@.dom() =~= old(self)@.dom());
                true
            },
            None => false,
        }
    }

    /// Acts on a received event: toggles each line whose key bit is set in
    /// the selector and returns the keys toggled, ascending. Bits with no
    /// line are ignored.
    pub fn handle(&mut self, ev: &InEvent) -> (r: Vec<u8>)
        requires
            old(self).wf(),
        ensures
            final(self).wf(),
            final(self)@ == apply_selector(old(self)@, ev.gpios),
            r@ == resolved(old(self)@, ev.gpios, 32),
    {
        let sel = ev.gpios;
        let ghost m0 = self@;
        let mut out: Vec<u8> = Vec::new();
        let mut i: u8 = 0;
        while i < 32
            invariant
                i <= 32,
                self.wf(),
                self@.dom() == m0.dom(),
                forall|k: u8|
                    m0.contains_key(k) ==> self@[k] == (if k < i && selects(sel, k) {
                        !m0[k]
                    } else {
                        m0[k]
                    }),
                out@ == resolved(m0, sel, i as nat),
            decreases 32 - i,
        {
            let ghost prev = self@;
            let bit = (sel >> (i as u32)) & 1u32 == 1u32;
            assert(bit == selects(sel, i));
            if bit {
                if self.toggle(i) {
                    out.push(i);
                }
            }
            assert forall|k: u8| m0.contains_key(k) implies self@[k] == (if k < i + 1
                && selects(sel, k) {
                !m0[k]
            } else {
                m0[k]
            }) by {
                assert(prev[k] == (if k < i && selects(sel, k) {
                    !m0[k]
                } else {
                    m0[k]
                }));
                if k != i {
                    assert(self@[k] == prev[k]);
                }
            }
            i = i + 1;
        }
        assert(self@ =~= apply_selector(m0, sel));
        out
    }
}

} // verus!
