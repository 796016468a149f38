//! A moving average over the most recent frames, which rounds off the steps
//! that notes make when they start and stop.

use vstd::prelude::*;
use crate::fixed::lemma_trunc_div_bound;
use crate::fixed::lemma_trunc_div_sign;
use crate::fixed::trunc_div;
use crate::reverb::WET_BOUND;

verus! {

/// The longest window of a moving average, in frames.
pub const MAX_WINDOW: usize = 4096;

/// The sum of the values of `values`.
pub open spec fn total(values: Seq<i64>) -> int
    decreases values.len(),
{
    if values.len() == 0 {
        0
    } else {
        total(values.drop_last()) + values.last()
    }
}

/// Replacing one value changes the sum by the difference of the two.
pub proof fn lemma_total_update(values: Seq<i64>, at: int, value: i64)
    requires
        0 <= at < values.len(),
    ensures
        total(values.update(at, value)) == total(values) - values[at] + value,
    decreases values.len(),
{
    let updated = values.update(at, value);
    if at == values.len() - 1 {
        assert(updated.drop_last() =~= values.drop_last());
    } else {
        lemma_total_update(values.drop_last(), at, value);
        assert(updated.drop_last() =~= values.drop_last().update(at, value));
    }
}

/// The sum of values within a bound is within the bound times their number;
/// the sum of zeros is zero.
pub proof fn lemma_total_bound(values: Seq<i64>, bound: int)
    requires
        0 <= bound,
        forall|i: int| 0 <= i < values.len() ==> -bound <= #[trigger] values[i] <= bound,
    ensures
        -(bound * values.len()) <= total(values) <= bound * values.len(),
    decreases values.len(),
{
    if values.len() > 0 {
        let rest = values.drop_last();
        lemma_total_bound(rest, bound);
        assert(bound * values.len() == bound * rest.len() + bound) by (nonlinear_arith)
            requires
                values.len() == rest.len() + 1,
        ;
    } else {
        assert(bound * values.len() == 0) by (nonlinear_arith)
            requires
                values.len() == 0,
        ;
    }
}

/// The sum of equal values is the value times their number.
pub proof fn lemma_total_of_equal(values: Seq<i64>, value: int)
    requires
        forall|i: int| 0 <= i < values.len() ==> #[trigger] values[i] == value,
    ensures
        total(values) == value * values.len(),
    decreases values.len(),
{
    if values.len() > 0 {
        let rest = values.drop_last();
        lemma_total_of_equal(rest, value);
        assert(value * values.len() == value * rest.len() + value) by (nonlinear_arith)
            requires
                values.len() == rest.len() + 1,
        ;
    } else {
        assert(value * values.len() == 0) by (nonlinear_arith)
            requires
                values.len() == 0,
        ;
    }
}

/// What a moving average holds.
pub struct SmootherModel {
    /// The most recent frames, as many as the window is long.
    pub history: Seq<i64>,
    /// The place of the oldest frame, which the next one overwrites.
    pub cursor: int,
}

impl SmootherModel {
    /// The window is no longer than `MAX_WINDOW`, the cursor is inside it,
    /// and every frame in it is within `WET_BOUND`. A window of no length
    /// stands for no smoothing at all.
    pub open spec fn wf(self) -> bool {
        &&& self.history.len() <= MAX_WINDOW
        &&& 0 <= self.cursor
        &&& self.history.len() == 0 ==> self.cursor == 0
        &&& self.history.len() > 0 ==> self.cursor < self.history.len()
        &&& forall|i: int|
            0 <= i < self.history.len() ==> -WET_BOUND <= #[trigger] self.history[i]
                <= WET_BOUND
    }

    /// Every frame in the window is zero.
    pub open spec fn is_silent(self) -> bool {
        forall|i: int| 0 <= i < self.history.len() ==> #[trigger] self.history[i] == 0
    }

    /// The window once `value` has taken the place of its oldest frame.
    pub open spec fn window_with(self, value: int) -> Seq<i64> {
        self.history.update(self.cursor, value as i64)
    }

    /// The smoothed frame: the mean of the window with `value` in it,
    /// rounded toward zero.
    pub open spec fn smoothed(self, value: int) -> int {
        if self.history.len() == 0 {
            value
        } else {
            trunc_div(total(self.window_with(value)), self.history.len() as int)
        }
    }

    /// The window after a frame, with the cursor moved on by one, around its
    /// end.
    pub open spec fn after(self, value: int) -> SmootherModel {
        if self.history.len() == 0 {
            self
        } else {
            SmootherModel {
                history: self.window_with(value),
                cursor: if self.cursor + 1 == self.history.len() {
                    0
                } else {
                    self.cursor + 1
                },
            }
        }
    }
}

/// A frame keeps the window well-formed and the smoothed value within
/// `WET_BOUND`; a silent window that takes in silence stays silent and puts
/// out silence.
pub proof fn lemma_smoother_frame(model: SmootherModel, value: int)
    requires
        model.wf(),
        -WET_BOUND <= value <= WET_BOUND,
    ensures
        model.after(value).wf(),
        -WET_BOUND <= model.smoothed(value) <= WET_BOUND,
        model.after(value).history.len() == model.history.len(),
        model.is_silent() && value == 0 ==> model.after(value).is_silent() && model.smoothed(value)
            == 0,
{
    if model.history.len() > 0 {
        let window = model.window_with(value);
        lemma_total_bound(window, WET_BOUND as int);
        lemma_trunc_div_bound(total(window), model.history.len() as int, WET_BOUND as int);
        if model.is_silent() && value == 0 {
            lemma_total_bound(window, 0);
            assert(0 * window.len() == 0) by (nonlinear_arith);
            lemma_trunc_div_sign(total(window), model.history.len() as int);
        }
    }
}

/// A steady signal passes unchanged: once the window holds the same value
/// throughout, that value is the smoothed frame.
pub proof fn lemma_steady_signal_passes(model: SmootherModel, value: i64)
    requires
        model.wf(),
        forall|i: int|
            0 <= i < model.history.len() && i != model.cursor ==> #[trigger] model.history[i]
                == value,
    ensures
        model.smoothed(value as int) == value,
{
    let window = model.history.len() as int;
    if window > 0 {
        let filled = model.window_with(value as int);
        lemma_total_of_equal(filled, value as int);
        let sum = value * window;
        if value >= 0 {
            assert(sum / window == value) by (nonlinear_arith)
                requires
                    sum == value * window,
                    window > 0,
            ;
            assert(sum >= 0) by (nonlinear_arith)
                requires
                    sum == value * window,
                    window > 0,
                    value >= 0,
            ;
        } else {
            let back = -sum;
            assert(back == (-value) * window) by (nonlinear_arith)
                requires
                    back == -(value * window),
            ;
            assert(back / window == -value) by (nonlinear_arith)
                requires
                    back == (-value) * window,
                    window > 0,
            ;
            assert(sum < 0) by (nonlinear_arith)
                requires
                    sum == value * window,
                    window > 0,
                    value < 0,
            ;
        }
    }
}

/// A moving average over a fixed number of frames.
pub struct Smoother {
    history: Vec<i64>,
    cursor: usize,
    /// The sum of the frames in the window.
    sum: i64,
}

impl View for Smoother {
    type V = SmootherModel;

    closed spec fn view(&self) -> SmootherModel {
        SmootherModel { history: self.history@, cursor: self.cursor as int }
    }
}

impl Smoother {
    /// See `SmootherModel::wf`.
    pub closed spec fn wf(&self) -> bool {
        &&& self@.wf()
        &&& self.sum == total(self.history@)
    }

    /// A well-formed smoother has a well-formed window.
    pub proof fn lemma_wf(&self)
        requires
            self.wf(),
        ensures
            self@.wf(),
    {
    }

    /// A silent window of `window` frames; `None` for a window longer than
    /// `MAX_WINDOW`.
    pub fn new(window: usize) -> (smoother: Option<Smoother>)
        ensures
            window <= MAX_WINDOW ==> smoother is Some && smoother.unwrap().wf()
                && smoother.unwrap()@ == (SmootherModel {
                history: Seq::new(window as nat, |i: int| 0i64),
                cursor: 0,
            }),
            window > MAX_WINDOW ==> smoother is None,
    {
        if window > MAX_WINDOW {
            return None;
        }
        let mut history: Vec<i64> = Vec::new();
        let mut filled: usize = 0;
        while filled < window
            invariant
                filled <= window,
                history@.len() == filled,
                forall|i: int| 0 <= i < filled ==> history@[i] == 0,
            decreases window - filled,
        {
            history.push(0);
            filled += 1;
        }
        proof {
            assert(history@ =~= Seq::new(window as nat, |i: int| 0i64));
            lemma_total_bound(history@, 0);
            assert(0 * history@.len() == 0) by (nonlinear_arith);
        }
        Some(Smoother { history, cursor: 0, sum: 0 })
    }

    /// No smoothing: every frame passes unchanged.
    pub fn off() -> (smoother: Smoother)
        ensures
            smoother.wf(),
            smoother@ == (SmootherModel { history: Seq::<i64>::empty(), cursor: 0 }),
    {
        Smoother { history: Vec::new(), cursor: 0, sum: 0 }
    }

    /// How many frames the window is long.
    pub fn len(&self) -> (window: usize)
        ensures
            window == self@.history.len(),
    {
        self.history.len()
    }

    /// Forgets what the window holds: every frame in it becomes zero, and
    /// the cursor goes back to the start.
    pub fn clear(&mut self)
        requires
            old(self).wf(),
        ensures
            final(self).wf(),
            final(self)@ == (SmootherModel {
                history: Seq::new(old(self)@.history.len(), |i: int| 0i64),
                cursor: 0,
            }),
            final(self)@.is_silent(),
    {
        let window: usize = self.history.len();
        let mut at: usize = 0;
        while at < window
            invariant
                at <= window,
                window <= MAX_WINDOW,
                self.history@.len() == window,
                forall|i: int| 0 <= i < at ==> self.history@[i] == 0,
            decreases window - at,
        {
            self.history[at] = 0;
            at += 1;
        }
        self.cursor = 0;
        self.sum = 0;
        proof {
            assert(self.history@ =~= Seq::new(window as nat, |i: int| 0i64));
            lemma_total_bound(self.history@, 0);
            assert(0 * self.history@.len() == 0) by (nonlinear_arith);
        }
    }

    /// Whether every frame in the window is zero.
    pub fn is_silent(&self) -> (silent: bool)
        ensures
            silent == self@.is_silent(),
    {
        let window: usize = self.history.len();
        let mut at: usize = 0;
        while at < window
            invariant
                at <= window,
                window == self.history@.len(),
                forall|i: int| 0 <= i < at ==> self.history@[i] == 0,
            decreases window - at,
        {
            if self.history[at] != 0 {
                assert(self@.history[at as int] != 0);
                return false;
            }
            at += 1;
        }
        true
    }

    /// Takes a frame into the window and returns the smoothed frame: see
    /// `SmootherModel::smoothed` and `SmootherModel::after`.
    pub fn process(&mut self, value: i64) -> (smoothed: i64)
        requires
            old(self).wf(),
            -WET_BOUND <= value <= WET_BOUND,
        ensures
            final(self).wf(),
            final(self)@ == old(self)@.after(value as int),
            smoothed == old(self)@.smoothed(value as int),
            -WET_BOUND <= smoothed <= WET_BOUND,
    {
        proof {
            lemma_smoother_frame(self@, value as int);
        }
        let window: usize = self.history.len();
        if window == 0 {
            return value;
        }
        let oldest: i64 = self.history[self.cursor];
        proof {
            lemma_total_update(self.history@, self.cursor as int, value);
            lemma_total_bound(self.history@, WET_BOUND as int);
            lemma_total_bound(self@.window_with(value as int), WET_BOUND as int);
            assert(WET_BOUND * self.history@.len() <= WET_BOUND * 4096) by (nonlinear_arith)
                requires
                    self.history@.len() <= 4096,
            ;
        }
        self.sum = self.sum - oldest + value;
        self.history[self.cursor] = value;
        self.cursor = if self.cursor + 1 == window {
            0
        } else {
            self.cursor + 1
        };
        self.sum / (window as i64)
    }
}

} // verus!
