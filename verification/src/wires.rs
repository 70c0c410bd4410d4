//! Nets (wires) and the net directory.
//!
//! A wire is an integer-identified signal with a classification, a current
//! level and a fanout list: the indices of every gate that consumes it as an
//! input. The directory holds each net at most once; lookup is by net
//! identifier, and the spec side models the directory as a sequence of wire
//! views searched front to back.

use vstd::prelude::*;

use crate::algebra::FiveLogic;

verus! {

#[derive(Debug, PartialEq, Eq, Structural, Clone, Copy)]
pub enum WireType {
    PrimaryInput,
    PrimaryOutput,
    Net,
}

pub struct Wire {
    pub net: u32,
    pub fanout: Vec<u32>,
    pub wiretype: WireType,
    pub level: FiveLogic,
}

/// The mathematical image of a wire.
pub struct WireView {
    pub net: u32,
    pub fanout: Seq<u32>,
    pub wiretype: WireType,
    pub level: FiveLogic,
}

impl View for Wire {
    type V = WireView;

    open spec fn view(&self) -> WireView {
        WireView { net: self.net, fanout: self.fanout@, wiretype: self.wiretype, level: self.level }
    }
}

/// A wire that has just been created on first reference: internal
/// classification, no consumers, level not yet computed.
pub open spec fn fresh_wire(n: u32) -> WireView {
    WireView { net: n, fanout: Seq::empty(), wiretype: WireType::Net, level: FiveLogic::U }
}

/// Index of the first entry for net `n`, or `-1` when the directory has
/// none.
pub open spec fn wire_index(ws: Seq<WireView>, n: u32) -> int
    decreases ws.len(),
{
    if ws.len() == 0 {
        -1
    } else if ws[0].net == n {
        0
    } else {
        let r = wire_index(ws.drop_first(), n);
        if r < 0 {
            -1
        } else {
            r + 1
        }
    }
}

pub open spec fn has_wire(ws: Seq<WireView>, n: u32) -> bool {
    wire_index(ws, n) >= 0
}

/// The level of net `n`, with `U` for a net the directory does not hold.
pub open spec fn level_of(ws: Seq<WireView>, n: u32) -> FiveLogic {
    if has_wire(ws, n) {
        ws[wire_index(ws, n)].level
    } else {
        FiveLogic::U
    }
}

/// `wire_index` points at the first entry for `n`, and `-1` means no entry.
pub proof fn lemma_wire_index(ws: Seq<WireView>, n: u32)
    ensures
        -1 <= wire_index(ws, n) < ws.len(),
        wire_index(ws, n) >= 0 ==> ws[wire_index(ws, n)].net == n,
        wire_index(ws, n) >= 0 ==> forall|j: int|
            0 <= j < wire_index(ws, n) ==> ws[j].net != n,
        wire_index(ws, n) == -1 ==> forall|j: int| 0 <= j < ws.len() ==> ws[j].net != n,
    decreases ws.len(),
{
    if ws.len() > 0 && ws[0].net != n {
        let tail = ws.drop_first();
        lemma_wire_index(tail, n);
        let r = wire_index(tail, n);
        if r >= 0 {
            assert(ws[r + 1] == tail[r]);
            assert forall|j: int| 0 <= j < r + 1 implies ws[j].net != n by {
                if j > 0 {
                    assert(ws[j] == tail[j - 1]);
                }
            }
        } else {
            assert forall|j: int| 0 <= j < ws.len() implies ws[j].net != n by {
                if j > 0 {
                    assert(ws[j] == tail[j - 1]);
                }
            }
        }
    }
}

/// The first entry for `n` is where `wire_index` points.
pub proof fn lemma_first_match(ws: Seq<WireView>, n: u32, i: int)
    requires
        0 <= i < ws.len(),
        ws[i].net == n,
        forall|j: int| 0 <= j < i ==> ws[j].net != n,
    ensures
        wire_index(ws, n) == i,
{
    lemma_wire_index(ws, n);
    let wi = wire_index(ws, n);
    if wi == -1 {
        assert(ws[i].net != n);
    } else if wi < i {
        assert(ws[wi].net != n);
    } else if wi > i {
        assert(ws[i].net != n);
    }
}

/// Appending a wire leaves every present net where it was and makes the new
/// net findable at the end.
pub proof fn lemma_wire_index_push(ws: Seq<WireView>, w: WireView, n: u32)
    ensures
        wire_index(ws.push(w), n) == (if wire_index(ws, n) >= 0 {
            wire_index(ws, n)
        } else if w.net == n {
            ws.len() as int
        } else {
            -1
        }),
    decreases ws.len(),
{
    let p = ws.push(w);
    assert(p.len() == ws.len() + 1);
    if ws.len() == 0 {
        assert(p[0] == w);
        if w.net == n {
            assert(wire_index(p, n) == 0);
        } else {
            assert(p.drop_first() =~= Seq::<WireView>::empty());
            assert(wire_index(p.drop_first(), n) == -1);
            assert(wire_index(p, n) == -1);
        }
        assert(wire_index(ws, n) == -1);
    } else {
        assert(p[0] == ws[0]);
        assert(p.drop_first() =~= ws.drop_first().push(w));
        lemma_wire_index_push(ws.drop_first(), w, n);
        if ws[0].net == n {
            assert(wire_index(p, n) == 0);
            assert(wire_index(ws, n) == 0);
        } else {
            assert(wire_index(p, n) == (if wire_index(p.drop_first(), n) < 0 {
                -1
            } else {
                wire_index(p.drop_first(), n) + 1
            }));
            assert(wire_index(ws, n) == (if wire_index(ws.drop_first(), n) < 0 {
                -1
            } else {
                wire_index(ws.drop_first(), n) + 1
            }));
        }
    }
}

/// Replacing an entry by one for the same net moves no lookup.
pub proof fn lemma_wire_index_update(ws: Seq<WireView>, i: int, w: WireView, n: u32)
    requires
        0 <= i < ws.len(),
        w.net == ws[i].net,
    ensures
        wire_index(ws.update(i, w), n) == wire_index(ws, n),
    decreases ws.len(),
{
    if i == 0 {
        assert(ws.update(0, w)[0] == w);
        if ws[0].net != n {
            assert(ws.update(0, w).drop_first() =~= ws.drop_first());
        }
    } else {
        assert(ws.update(i, w)[0] == ws[0]);
        assert(ws.update(i, w).drop_first() =~= ws.drop_first().update(i - 1, w));
        lemma_wire_index_update(ws.drop_first(), i - 1, w, n);
    }
}

/// Directory after the wire for `n` has been created on first reference.
pub open spec fn ensure_wire_spec(ws: Seq<WireView>, n: u32) -> Seq<WireView> {
    if has_wire(ws, n) {
        ws
    } else {
        ws.push(fresh_wire(n))
    }
}

/// Directory after net `n` has been driven to `v`.
pub open spec fn set_level_spec(ws: Seq<WireView>, n: u32, v: FiveLogic) -> Seq<WireView> {
    let i = wire_index(ws, n);
    ws.update(i, WireView { level: v, ..ws[i] })
}

/// Directory after gate index `g` has been recorded as a consumer of net
/// `n`, creating the wire on first reference.
pub open spec fn add_input_use_spec(ws: Seq<WireView>, n: u32, g: u32) -> Seq<WireView> {
    if has_wire(ws, n) {
        let i = wire_index(ws, n);
        ws.update(i, WireView { fanout: ws[i].fanout.push(g), ..ws[i] })
    } else {
        ws.push(WireView { fanout: seq![g], ..fresh_wire(n) })
    }
}

/// Directory after net `n` has been classified, when it is present.
pub open spec fn mark_spec(ws: Seq<WireView>, n: u32, t: WireType) -> Seq<WireView> {
    if has_wire(ws, n) {
        let i = wire_index(ws, n);
        ws.update(i, WireView { wiretype: t, ..ws[i] })
    } else {
        ws
    }
}

/// The directory of every net of a netlist, keyed by net identifier.
pub struct WireTable {
    wires: Vec<Wire>,
}

impl View for WireTable {
    type V = Seq<WireView>;

    closed spec fn view(&self) -> Seq<WireView> {
        self.wires@.map_values(|w: Wire| w@)
    }
}

impl WireTable {
    pub fn new() -> (r: WireTable)
        ensures
            r@ =~= Seq::<WireView>::empty(),
    {
        WireTable { wires: Vec::new() }
    }

    pub fn len(&self) -> (r: usize)
        ensures
            r == self@.len(),
    {
        self.wires.len()
    }

    /// The wire of net `n`, when the directory holds one.
    pub fn get(&self, n: u32) -> (r: Option<&Wire>)
        ensures
            match r {
                Some(w) => has_wire(self@, n) && w@ == self@[wire_index(self@, n)],
                None => !has_wire(self@, n),
            },
    {
        proof {
            lemma_wire_index(self@, n);
        }
        let mut i: usize = 0;
        while i < self.wires.len()
            invariant
                i <= self.wires.len(),
                self@.len() == self.wires.len(),
                forall|j: int| 0 <= j < i ==> self@[j].net != n,
                -1 <= wire_index(self@, n) < self@.len(),
                wire_index(self@, n) >= 0 ==> self@[wire_index(self@, n)].net == n,
                wire_index(self@, n) >= 0 ==> forall|j: int|
                    0 <= j < wire_index(self@, n) ==> self@[j].net != n,
                wire_index(self@, n) == -1 ==> forall|j: int|
                    0 <= j < self@.len() ==> self@[j].net != n,
            decreases self.wires.len() - i,
        {
            assert(self@[i as int] == self.wires@[i as int]@);
            if self.wires[i].net == n {
                proof {
                    lemma_first_match(self@, n, i as int);
                }
                return Some(&self.wires[i]);
            }
            i = i + 1;
        }
        None
    }

    /// The wires of the directory, in insertion order.
    pub fn entries(&self) -> (r: &Vec<Wire>)
        ensures
            r@.map_values(|w: Wire| w@) == self@,
    {
        &self.wires
    }

    /// The current level of net `n`.
    pub fn level(&self, n: u32) -> (r: FiveLogic)
        requires
            has_wire(self@, n),
        ensures
            r == level_of(self@, n),
    {
        let w = self.get(n);
        match w {
            Some(w) => w.level,
            None => FiveLogic::U,
        }
    }

    /// A copy of the fanout list of net `n`.
    pub fn fanout_of(&self, n: u32) -> (r: Vec<u32>)
        requires
            has_wire(self@, n),
        ensures
            r@ == self@[wire_index(self@, n)].fanout,
    {
        let w = match self.get(n) {
            Some(w) => w,
            None => unreached(),
        };
        let mut r: Vec<u32> = Vec::new();
        let mut j: usize = 0;
        while j < w.fanout.len()
            invariant
                j <= w.fanout@.len(),
                r@ == w.fanout@.take(j as int),
            decreases w.fanout@.len() - j,
        {
            r.push(w.fanout[j]);
            assert(r@ =~= w.fanout@.take(j + 1));
            j = j + 1;
        }
        assert(w.fanout@.take(w.fanout@.len() as int) =~= w.fanout@);
        r
    }

    /// Creates the wire for net `n` on first reference.
    pub fn ensure_wire(&mut self, n: u32)
        ensures
            final(self)@ == ensure_wire_spec(old(self)@, n),
    {
        proof {
            lemma_wire_index(self@, n);
        }
        if self.get(n).is_none() {
            self.wires.push(
                Wire { net: n, fanout: Vec::new(), wiretype: WireType::Net, level: FiveLogic::U },
            );
            assert(self@ =~= old(self)@.push(fresh_wire(n)));
        }
    }

    /// Drives net `n` to level `v`.
    pub fn set_level(&mut self, n: u32, v: FiveLogic)
        requires
            has_wire(old(self)@, n),
        ensures
            final(self)@ == set_level_spec(old(self)@, n, v),
    {
        proof {
            lemma_wire_index(self@, n);
        }
        let ghost ws0 = old(self)@;
        let mut i: usize = 0;
        while i < self.wires.len()
            invariant
                self@ == old(self)@,
                ws0 == old(self)@,
                self@.len() == self.wires.len(),
                i <= self.wires.len(),
                forall|j: int| 0 <= j < i ==> self@[j].net != n,
                0 <= wire_index(self@, n) < self@.len(),
                self@[wire_index(self@, n)].net == n,
                forall|j: int| 0 <= j < wire_index(self@, n) ==> self@[j].net != n,
            decreases self.wires.len() - i,
        {
            assert(self@[i as int] == self.wires@[i as int]@);
            if self.wires[i].net == n {
                proof {
                    lemma_first_match(ws0, n, i as int);
                }
                self.wires[i].level = v;
                assert(self@ =~= set_level_spec(ws0, n, v));
                return ;
            }
            i = i + 1;
        }
        proof {
            assert(ws0[wire_index(ws0, n)].net != n);
        }
    }

    /// Records gate index `g` as a consumer of net `n`, creating the wire on
    /// first reference.
    pub fn add_input_use(&mut self, n: u32, g: u32)
        ensures
            final(self)@ == add_input_use_spec(old(self)@, n, g),
    {
        proof {
            lemma_wire_index(self@, n);
        }
        let ghost ws0 = old(self)@;
        let mut i: usize = 0;
        while i < self.wires.len()
            invariant
                self@ == old(self)@,
                ws0 == old(self)@,
                self@.len() == self.wires.len(),
                i <= self.wires.len(),
                forall|j: int| 0 <= j < i ==> self@[j].net != n,
                -1 <= wire_index(self@, n) < self@.len(),
                wire_index(self@, n) >= 0 ==> self@[wire_index(self@, n)].net == n,
                wire_index(self@, n) >= 0 ==> forall|j: int|
                    0 <= j < wire_index(self@, n) ==> self@[j].net != n,
                wire_index(self@, n) == -1 ==> forall|j: int|
                    0 <= j < self@.len() ==> self@[j].net != n,
            decreases self.wires.len() - i,
        {
            assert(self@[i as int] == self.wires@[i as int]@);
            if self.wires[i].net == n {
                proof {
                    lemma_first_match(ws0, n, i as int);
                }
                self.wires[i].fanout.push(g);
                assert(self@ =~= add_input_use_spec(ws0, n, g));
                return ;
            }
            i = i + 1;
        }
        let mut fo: Vec<u32> = Vec::new();
        fo.push(g);
        self.wires.push(Wire { net: n, fanout: fo, wiretype: WireType::Net, level: FiveLogic::U });
        assert(self@ =~= add_input_use_spec(ws0, n, g));
    }

    /// Classifies net `n` when the directory holds it; otherwise does
    /// nothing.
    pub fn mark(&mut self, n: u32, t: WireType)
        ensures
            final(self)@ == mark_spec(old(self)@, n, t),
    {
        proof {
            lemma_wire_index(self@, n);
        }
        let ghost ws0 = old(self)@;
        let mut i: usize = 0;
        while i < self.wires.len()
            invariant
                self@ == old(self)@,
                ws0 == old(self)@,
                self@.len() == self.wires.len(),
                i <= self.wires.len(),
                forall|j: int| 0 <= j < i ==> self@[j].net != n,
                -1 <= wire_index(self@, n) < self@.len(),
                wire_index(self@, n) >= 0 ==> self@[wire_index(self@, n)].net == n,
                wire_index(self@, n) >= 0 ==> forall|j: int|
                    0 <= j < wire_index(self@, n) ==> self@[j].net != n,
                wire_index(self@, n) == -1 ==> forall|j: int|
                    0 <= j < self@.len() ==> self@[j].net != n,
            decreases self.wires.len() - i,
        {
            assert(self@[i as int] == self.wires@[i as int]@);
            if self.wires[i].net == n {
                proof {
                    lemma_first_match(ws0, n, i as int);
                }
                self.wires[i].wiretype = t;
                assert(self@ =~= mark_spec(ws0, n, t));
                return ;
            }
            i = i + 1;
        }
    }
}

} // verus!
