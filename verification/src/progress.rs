//! Progress reports.

use vstd::prelude::*;

verus! {

/// Bytes between two reports on `len` bytes: a hundredth of them, but at
/// least 64 KiB.
pub open spec fn stride(len: nat) -> nat {
    if len / 100 > 0x1_0000 {
        len / 100
    } else {
        0x1_0000
    }
}

/// The marks at which progress on `len` bytes is reported on the way.
pub open spec fn marks(len: nat) -> Seq<usize> {
    Seq::new(len / stride(len), |i: int| ((i + 1) * stride(len)) as usize)
}

/// The mark after `n` others is not past the end while the next multiple of
/// the stride is not.
pub proof fn lemma_marks(len: nat, n: nat)
    ensures
        (n + 1) * stride(len) <= len ==> n < marks(len).len(),
{
    let s = stride(len);
    if (n + 1) * s <= len {
        vstd::arithmetic::div_mod::lemma_div_is_ordered(((n + 1) * s) as int, len as int, s as int);
        vstd::arithmetic::div_mod::lemma_div_by_multiple((n + 1) as int, s as int);
    }
}

/// What is reported on `len` bytes: every mark on the way, and the end.
pub open spec fn reports(len: nat) -> Seq<usize> {
    marks(len).push(len as usize)
}

/// Progress is monotonic and complete: no report goes back, the last one is the
/// end, and there are about a hundred of them at the most.
pub proof fn law_progress(len: nat, i: int, j: int)
    requires
        len <= usize::MAX,
        0 <= i <= j < reports(len).len(),
    ensures
        reports(len)[i] <= reports(len)[j] <= len,
        reports(len).last() == len,
        reports(len).len() <= 101,
{
    let s = stride(len);
    let n = len / s;
    assert(n * s <= len) by {
        vstd::arithmetic::div_mod::lemma_fundamental_div_mod(len as int, s as int);
        assert(s * n == n * s) by (nonlinear_arith);
    }
    assert(n <= 100) by (nonlinear_arith)
        requires
            n * s <= len <= 100 * s + 99,
            s > 99,
    ;
    if j < n {
        assert((i + 1) * s <= (j + 1) * s <= n * s) by (nonlinear_arith)
            requires
                i <= j < n,
                s > 0,
        ;
    } else if i < n {
        assert((i + 1) * s <= n * s) by (nonlinear_arith)
            requires
                i < n,
                s > 0,
        ;
    }
}

/// Calls a function with each report, and keeps account of them.
pub struct Meter<F> {
    f: F,
    log: Ghost<Seq<usize>>,
}

impl<F> View for Meter<F> {
    type V = Seq<usize>;

    closed spec fn view(&self) -> Seq<usize> {
        self.log@
    }
}

impl<F: FnMut(usize)> Meter<F> {
    /// The function that is called.
    pub closed spec fn function(&self) -> F {
        self.f
    }

    /// The function takes every report, and has been called with those in the
    /// account.
    pub open spec fn callable(&self) -> bool {
        &&& forall|done: usize| call_requires(self.function(), (done,))
        &&& forall|i: int|
            0 <= i < self@.len() ==> call_ensures(self.function(), (#[trigger] self@[i],), ())
    }

    pub fn new(f: F) -> (m: Self)
        requires
            forall|done: usize| call_requires(f, (done,)),
        ensures
            m.callable(),
            m.function() == f,
            m@ == Seq::<usize>::empty(),
    {
        Meter { f, log: Ghost(Seq::empty()) }
    }

    /// Report that `done` bytes are done.
    pub fn report(&mut self, done: usize)
        requires
            old(self).callable(),
        ensures
            final(self).callable(),
            final(self).function() == old(self).function(),
            final(self)@ == old(self)@.push(done),
    {
        assert(call_requires(self.function(), (done,)));
        (self.f)(done);
        self.log = Ghost(self.log@.push(done));
        assert forall|i: int| 0 <= i < self@.len() implies call_ensures(
            self.function(),
            (#[trigger] self@[i],),
            (),
        ) by {
            if i < old(self)@.len() {
                assert(self@[i] == old(self)@[i]);
            }
        }
    }
}

/// As [`Meter`], for reports that give the total as well.
pub struct TotalMeter<F> {
    f: F,
    log: Ghost<Seq<(usize, usize)>>,
}

impl<F> View for TotalMeter<F> {
    type V = Seq<(usize, usize)>;

    closed spec fn view(&self) -> Seq<(usize, usize)> {
        self.log@
    }
}

impl<F: FnMut(usize, usize)> TotalMeter<F> {
    /// The function that is called.
    pub closed spec fn function(&self) -> F {
        self.f
    }

    /// The function takes every report, and has been called with those in the
    /// account.
    pub open spec fn callable(&self) -> bool {
        &&& forall|done: usize, total: usize| call_requires(self.function(), (done, total))
        &&& forall|i: int|
            0 <= i < self@.len() ==> call_ensures(self.function(), #[trigger] self@[i], ())
    }

    pub fn new(f: F) -> (m: Self)
        requires
            forall|done: usize, total: usize| call_requires(f, (done, total)),
        ensures
            m.callable(),
            m.function() == f,
            m@ == Seq::<(usize, usize)>::empty(),
    {
        TotalMeter { f, log: Ghost(Seq::empty()) }
    }

    /// Report that `done` bytes of `total` are done.
    pub fn report(&mut self, done: usize, total: usize)
        requires
            old(self).callable(),
        ensures
            final(self).callable(),
            final(self).function() == old(self).function(),
            final(self)@ == old(self)@.push((done, total)),
    {
        assert(call_requires(self.function(), (done, total)));
        (self.f)(done, total);
        self.log = Ghost(self.log@.push((done, total)));
        assert forall|i: int| 0 <= i < self@.len() implies call_ensures(
            self.function(),
            #[trigger] self@[i],
            (),
        ) by {
            if i < old(self)@.len() {
                assert(self@[i] == old(self)@[i]);
            }
        }
    }
}

/// Reports come at even distances, a hundredth of the whole or 64 KiB, whichever
/// is more; the last distance may be shorter.
pub proof fn law_reports_are_even(len: nat, i: int)
    requires
        len <= usize::MAX,
        0 <= i < reports(len).len() - 1,
    ensures
        ({
            let all = reports(len);
            let step = if len / 100 > 65536 {
                len / 100
            } else {
                65536
            };
            &&& all[i] == (i + 1) * step
            &&& len < all.len() * step
        }),
{
    let s = stride(len);
    let n = len / s;
    vstd::arithmetic::div_mod::lemma_fundamental_div_mod(len as int, s as int);
    assert((n + 1) * s == s * n + s) by (nonlinear_arith);
    assert((i + 1) * s <= s * n) by (nonlinear_arith)
        requires
            i + 1 <= n,
            s > 0,
    ;
}

/// What takes less than one such distance is reported once, at its end.
pub proof fn law_short_work_is_reported_once(len: nat)
    requires
        len < 65536,
    ensures
        reports(len) == seq![len as usize],
{
    assert(len / 65536 == 0);
    assert(reports(len) =~= seq![len as usize]);
}

} // verus!
