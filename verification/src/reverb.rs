//! A feedback delay line: every frame hears, faded, what the line put out one
//! line length earlier.

use vstd::prelude::*;
use crate::fixed::ONE;
use crate::fixed::lemma_trunc_div_bound;
use crate::fixed::lemma_trunc_div_sign;
use crate::fixed::trunc_div;

verus! {

/// The largest magnitude of the sum of all voices: one full-scale sample for
/// each of the 128 pitches.
pub const DRY_BOUND: i64 = 4194304;

/// The largest magnitude that a value in the signal path after the voices
/// can reach: `DRY_BOUND * ONE`, the limit of a feedback that fades by at
/// least one part in `ONE` on every pass.
pub const WET_BOUND: i64 = 137438953472;

/// What a delay line holds.
pub struct ReverbModel {
    /// The stored values, as many as the delay has frames.
    pub line: Seq<i64>,
    /// The place in the line that the next frame reads and overwrites.
    pub cursor: int,
    /// By how much a stored value is faded when it is heard again, in parts
    /// of `ONE`.
    pub decay: int,
}

impl ReverbModel {
    /// The decay is under one, the cursor is inside the line, and every
    /// stored value is within `WET_BOUND`. A line of no length stands for no
    /// delay at all.
    pub open spec fn wf(self) -> bool {
        &&& 0 <= self.decay < ONE
        &&& 0 <= self.cursor
        &&& self.line.len() == 0 ==> self.cursor == 0
        &&& self.line.len() > 0 ==> self.cursor < self.line.len()
        &&& forall|i: int|
            0 <= i < self.line.len() ==> -WET_BOUND <= #[trigger] self.line[i] <= WET_BOUND
    }

    /// Every stored value is zero: nothing is left to be heard.
    pub open spec fn is_silent(self) -> bool {
        forall|i: int| 0 <= i < self.line.len() ==> #[trigger] self.line[i] == 0
    }

    /// What a frame sounds like with the delay mixed in: the frame itself
    /// plus the value under the cursor, faded by the decay.
    pub open spec fn wet(self, dry: int) -> int {
        if self.line.len() == 0 {
            dry
        } else {
            dry + trunc_div(self.line[self.cursor] * self.decay, ONE as int)
        }
    }

    /// The line after a frame: the mixed value takes the place under the
    /// cursor, and the cursor moves on by one, around the end of the line.
    pub open spec fn after(self, dry: int) -> ReverbModel {
        if self.line.len() == 0 {
            self
        } else {
            ReverbModel {
                line: self.line.update(self.cursor, self.wet(dry) as i64),
                cursor: if self.cursor + 1 == self.line.len() {
                    0
                } else {
                    self.cursor + 1
                },
                decay: self.decay,
            }
        }
    }
}

/// A faded value: within `WET_BOUND - DRY_BOUND`, so that a frame can be added
/// to it.
pub proof fn lemma_faded_bound(stored: int, decay: int)
    requires
        -WET_BOUND <= stored <= WET_BOUND,
        0 <= decay < ONE,
    ensures
        -(WET_BOUND - DRY_BOUND) <= trunc_div(stored * decay, ONE as int) <= WET_BOUND
            - DRY_BOUND,
        -(WET_BOUND * ONE) <= stored * decay <= WET_BOUND * ONE,
        stored == 0 ==> trunc_div(stored * decay, ONE as int) == 0,
{
    let product = stored * decay;
    assert(-(137434759168 * 32768) <= product <= 137434759168 * 32768) by (nonlinear_arith)
        requires
            product == stored * decay,
            -137438953472 <= stored <= 137438953472,
            0 <= decay <= 32767,
    ;
    lemma_trunc_div_bound(product, ONE as int, 137434759168);
    if stored == 0 {
        assert(product == 0) by (nonlinear_arith)
            requires
                product == stored * decay,
                stored == 0,
        ;
        lemma_trunc_div_sign(product, ONE as int);
    }
}

/// An echo is fainter than what it echoes: fading brings every value but zero
/// closer to zero, and never across it.
pub proof fn lemma_echo_is_fainter(stored: int, decay: int)
    requires
        0 <= decay < ONE,
    ensures
        stored > 0 ==> 0 <= trunc_div(stored * decay, ONE as int) < stored,
        stored < 0 ==> stored < trunc_div(stored * decay, ONE as int) <= 0,
        stored == 0 ==> trunc_div(stored * decay, ONE as int) == 0,
{
    let product = stored * decay;
    if stored > 0 {
        assert(0 <= product / 32768 < stored) by (nonlinear_arith)
            requires
                product == stored * decay,
                stored > 0,
                0 <= decay < 32768,
        {
            assert(0 <= product < stored * 32768);
        }
    } else if stored < 0 {
        let back = -product;
        assert(0 <= back / 32768 < -stored) by (nonlinear_arith)
            requires
                back == -(stored * decay),
                stored < 0,
                0 <= decay < 32768,
        {
            assert(0 <= back < (-stored) * 32768);
        }
    } else {
        assert(product == 0) by (nonlinear_arith)
            requires
                product == stored * decay,
                stored == 0,
        ;
    }
}

/// A frame keeps the line well-formed and its output within `WET_BOUND`; a
/// silent line that hears silence stays silent and puts out silence.
pub proof fn lemma_reverb_frame(model: ReverbModel, dry: int)
    requires
        model.wf(),
        -DRY_BOUND <= dry <= DRY_BOUND,
    ensures
        model.after(dry).wf(),
        -WET_BOUND <= model.wet(dry) <= WET_BOUND,
        model.after(dry).line.len() == model.line.len(),
        model.after(dry).decay == model.decay,
        model.is_silent() ==> model.wet(dry) == dry,
        model.is_silent() && dry == 0 ==> model.after(dry).is_silent(),
{
    if model.line.len() > 0 {
        lemma_faded_bound(model.line[model.cursor] as int, model.decay);
    }
}

/// A feedback delay line.
pub struct ReverbLine {
    line: Vec<i64>,
    cursor: usize,
    decay: u16,
}

impl View for ReverbLine {
    type V = ReverbModel;

    closed spec fn view(&self) -> ReverbModel {
        ReverbModel { line: self.line@, cursor: self.cursor as int, decay: self.decay as int }
    }
}

impl ReverbLine {
    /// See `ReverbModel::wf`.
    pub open spec fn wf(&self) -> bool {
        self@.wf()
    }

    /// A silent line of `length` frames that fades what it repeats to
    /// `decay` parts in `ONE`; `None` for a decay that is not under one.
    pub fn new(length: usize, decay: u16) -> (reverb: Option<ReverbLine>)
        ensures
            decay < ONE ==> reverb is Some && reverb.unwrap().wf() && reverb.unwrap()@ == (
            ReverbModel { line: Seq::new(length as nat, |i: int| 0i64), cursor: 0, decay: decay as int }),
            decay >= ONE ==> reverb is None,
    {
        if decay >= 32768 {
            return None;
        }
        let mut line: Vec<i64> = Vec::new();
        let mut filled: usize = 0;
        while filled < length
            invariant
                filled <= length,
                line@.len() == filled,
                forall|i: int| 0 <= i < filled ==> line@[i] == 0,
            decreases length - filled,
        {
            line.push(0);
            filled += 1;
        }
        assert(line@ =~= Seq::new(length as nat, |i: int| 0i64));
        Some(ReverbLine { line, cursor: 0, decay })
    }

    /// No delay: every frame passes unchanged.
    pub fn off() -> (reverb: ReverbLine)
        ensures
            reverb.wf(),
            reverb@ == (ReverbModel { line: Seq::<i64>::empty(), cursor: 0, decay: 0 }),
    {
        ReverbLine { line: Vec::new(), cursor: 0, decay: 0 }
    }

    /// How many frames the delay is long.
    pub fn len(&self) -> (length: usize)
        ensures
            length == self@.line.len(),
    {
        self.line.len()
    }

    /// Forgets what the line holds: every stored value becomes zero, and the
    /// cursor goes back to the start.
    pub fn clear(&mut self)
        requires
            old(self).wf(),
        ensures
            final(self).wf(),
            final(self)@ == (ReverbModel {
                line: Seq::new(old(self)@.line.len(), |i: int| 0i64),
                cursor: 0,
                decay: old(self)@.decay,
            }),
            final(self)@.is_silent(),
    {
        let length: usize = self.line.len();
        let mut at: usize = 0;
        while at < length
            invariant
                at <= length,
                self.line@.len() == length,
                self.decay == old(self).decay,
                forall|i: int| 0 <= i < at ==> self.line@[i] == 0,
            decreases length - at,
        {
            self.line[at] = 0;
            at += 1;
        }
        self.cursor = 0;
        assert(self.line@ =~= Seq::new(length as nat, |i: int| 0i64));
    }

    /// Whether every stored value is zero.
    pub fn is_silent(&self) -> (silent: bool)
        ensures
            silent == self@.is_silent(),
    {
        let length: usize = self.line.len();
        let mut at: usize = 0;
        while at < length
            invariant
                at <= length,
                length == self.line@.len(),
                forall|i: int| 0 <= i < at ==> self.line@[i] == 0,
            decreases length - at,
        {
            if self.line[at] != 0 {
                assert(self@.line[at as int] != 0);
                return false;
            }
            at += 1;
        }
        true
    }

    /// Mixes the delay into a frame and stores the result: see
    /// `ReverbModel::wet` and `ReverbModel::after`.
    pub fn process(&mut self, dry: i64) -> (wet: i64)
        requires
            old(self).wf(),
            -DRY_BOUND <= dry <= DRY_BOUND,
        ensures
            final(self).wf(),
            final(self)@ == old(self)@.after(dry as int),
            wet == old(self)@.wet(dry as int),
            -WET_BOUND <= wet <= WET_BOUND,
    {
        proof {
            lemma_reverb_frame(self@, dry as int);
        }
        let length: usize = self.line.len();
        if length == 0 {
            return dry;
        }
        let stored: i64 = self.line[self.cursor];
        proof {
            lemma_faded_bound(stored as int, self.decay as int);
        }
        let faded: i64 = (stored * (self.decay as i64)) / (ONE as i64);
        let wet: i64 = dry + faded;
        self.line[self.cursor] = wet;
        self.cursor = if self.cursor + 1 == length {
            0
        } else {
            self.cursor + 1
        };
        wet
    }
}

} // verus!
