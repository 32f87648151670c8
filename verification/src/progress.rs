//! The weighted progress accumulator every stage reports into: additive
//! updates, never decreasing, capped at the total, with a percentage that
//! reaches one hundred exactly when everything promised has been done.
use vstd::prelude::*;

verus! {

/// A monotone progress counter over fixed total units.
pub struct Progress {
    total: u64,
    done: u64,
    message: String,
}

impl Progress {
    /// Units promised in all.
    pub closed spec fn spec_total(self) -> u64 {
        self.total
    }

    /// Units reported so far.
    pub closed spec fn spec_done(self) -> u64 {
        self.done
    }

    /// The status text of the latest update that carried one.
    pub closed spec fn spec_message(self) -> Seq<char> {
        self.message@
    }

    /// Completed units never exceed the total, and a total exists.
    pub closed spec fn wf(self) -> bool {
        self.done <= self.total && self.total >= 1
    }

    /// A fresh accumulator with nothing done.
    pub fn new(total: u64) -> (r: Self)
        requires
            total >= 1,
        ensures
            r.wf(),
            r.spec_total() == total,
            r.spec_done() == 0,
            r.spec_message() == Seq::<char>::empty(),
    {
        Progress { total, done: 0, message: String::new() }
    }

    /// Add `delta` completed units, saturating at the total; an update can
    /// only move progress forward.
    pub fn emit(&mut self, delta: u64, message: Option<&str>)
        requires
            old(self).wf(),
        ensures
            final(self).wf(),
            final(self).spec_total() == old(self).spec_total(),
            final(self).spec_done() >= old(self).spec_done(),
            old(self).spec_done() + delta <= old(self).spec_total() ==> final(self).spec_done()
                == old(self).spec_done() + delta,
            old(self).spec_done() + delta > old(self).spec_total() ==> final(self).spec_done()
                == old(self).spec_total(),
            message matches Some(m) ==> final(self).spec_message() == m@,
            message is None ==> final(self).spec_message() == old(self).spec_message(),
    {
        if delta <= self.total - self.done {
            self.done = self.done + delta;
        } else {
            self.done = self.total;
        }
        match message {
            Some(m) => {
                let mut s = String::new();
                s.append(m);
                self.message = s;
            }
            None => {}
        }
    }

    /// Completed percentage: at most one hundred, and one hundred exactly
    /// when all promised units are done.
    pub fn percent(&self) -> (r: u64)
        requires
            self.wf(),
        ensures
            r <= 100,
            r == 100 <==> self.spec_done() == self.spec_total(),
            r == self.spec_done() * 100 / (self.spec_total() as int),
    {
        proof {
            let d = self.done as int;
            let t = self.total as int;
            assert(d * 100 / t <= 100) by (nonlinear_arith)
                requires
                    0 <= d <= t,
                    t >= 1,
            ;
            assert(d == t ==> d * 100 / t == 100) by (nonlinear_arith)
                requires
                    t >= 1,
            ;
            assert(d < t ==> d * 100 / t < 100) by (nonlinear_arith)
                requires
                    0 <= d,
                    t >= 1,
            ;
        }
        (self.done as u128 * 100 / self.total as u128) as u64
    }

    /// The latest status text.
    pub fn message(&self) -> (r: &str)
        ensures
            r@ == self.spec_message(),
    {
        self.message.as_str()
    }
}

} // verus!
