use vstd::prelude::*;

use crate::explorer::Nav;

verus! {

/// One navigation as a user makes it.
pub enum NavOp {
    /// A new directory is opened, by entering it or by going up to it.
    Visit(Seq<char>),
    Back,
    Forward,
}

/// Browser history as two stacks around the current page: the pages behind
/// it, the nearest last, and the pages ahead of it, the nearest last.
pub struct BrowserModel {
    pub back: Seq<Seq<char>>,
    pub current: Seq<char>,
    pub forward: Seq<Seq<char>>,
}

impl BrowserModel {
    /// A visit pushes the current page behind and drops the pages ahead;
    /// back and forward move one page between the stacks, or do nothing
    /// where their stack is empty.
    pub open spec fn step(self, op: NavOp) -> BrowserModel {
        match op {
            NavOp::Visit(p) => BrowserModel {
                back: self.back.push(self.current),
                current: p,
                forward: Seq::empty(),
            },
            NavOp::Back => if self.back.len() > 0 {
                BrowserModel {
                    back: self.back.drop_last(),
                    current: self.back.last(),
                    forward: self.forward.push(self.current),
                }
            } else {
                self
            },
            NavOp::Forward => if self.forward.len() > 0 {
                BrowserModel {
                    back: self.back.push(self.current),
                    current: self.forward.last(),
                    forward: self.forward.drop_last(),
                }
            } else {
                self
            },
        }
    }

    pub open spec fn replay(self, ops: Seq<NavOp>) -> BrowserModel
        decreases ops.len(),
    {
        if ops.len() == 0 {
            self
        } else {
            self.replay(ops.drop_last()).step(ops.last())
        }
    }
}

impl Nav {
    /// What the browser's navigation methods do: a visit, or a move back or
    /// forward where one is available.
    pub open spec fn step(self, op: NavOp) -> Nav {
        match op {
            NavOp::Visit(p) => self.visit(p),
            NavOp::Back => if self.can_back() {
                self.back()
            } else {
                self
            },
            NavOp::Forward => if self.can_forward() {
                self.forward()
            } else {
                self
            },
        }
    }

    pub open spec fn replay(self, ops: Seq<NavOp>) -> Nav
        decreases ops.len(),
    {
        if ops.len() == 0 {
            self
        } else {
            self.replay(ops.drop_last()).step(ops.last())
        }
    }

    /// The history read as two stacks around the current directory.
    pub open spec fn as_browser(self) -> BrowserModel {
        let n = self.history.len();
        BrowserModel {
            back: self.history.subrange(0, n - 1 - self.position),
            current: self.current(),
            forward: Seq::new(self.position, |i: int| self.history[n - 1 - i]),
        }
    }
}

proof fn lemma_step_matches(s: Nav, op: NavOp)
    requires
        s.wf(),
    ensures
        s.step(op).wf(),
        s.step(op).as_browser() == s.as_browser().step(op),
{
    let h = s.history;
    let n = h.len();
    let m = s.as_browser();
    match op {
        NavOp::Visit(p) => {
            let t = s.visit(p);
            assert(t.history.len() == n - s.position + 1);
            assert(t.as_browser().back =~= m.back.push(m.current));
            assert(t.as_browser().forward =~= Seq::<Seq<char>>::empty());
        },
        NavOp::Back => {
            if s.can_back() {
                let t = s.back();
                assert(t.as_browser().back =~= m.back.drop_last());
                assert(t.as_browser().forward =~= m.forward.push(m.current));
            }
        },
        NavOp::Forward => {
            if s.can_forward() {
                let t = s.forward();
                assert(t.as_browser().back =~= m.back.push(m.current));
                assert(t.as_browser().forward =~= m.forward.drop_last());
            }
        },
    }
}

/// Any sequence of visits, moves back and moves forward leaves the history in
/// the state that browser-style back and forward stacks reach, dropping the
/// pages ahead on each new visit; in particular at the same current directory.
pub proof fn lemma_history_matches_browser(start: Nav, ops: Seq<NavOp>)
    requires
        start.wf(),
    ensures
        start.replay(ops).wf(),
        start.replay(ops).as_browser() == start.as_browser().replay(ops),
        start.replay(ops).current() == start.as_browser().replay(ops).current,
    decreases ops.len(),
{
    if ops.len() > 0 {
        lemma_history_matches_browser(start, ops.drop_last());
        lemma_step_matches(start.replay(ops.drop_last()), ops.last());
    }
}

/// From a freshly opened browser at `start`, any sequence of navigations ends
/// at the directory that browser-style back and forward stacks, started empty
/// around `start`, end at.
pub proof fn lemma_fresh_history_matches_browser(start: Seq<char>, ops: Seq<NavOp>)
    ensures
        (Nav { history: seq![start], position: 0 }).replay(ops).current() == (BrowserModel {
            back: Seq::empty(),
            current: start,
            forward: Seq::empty(),
        }).replay(ops).current,
{
    let s = Nav { history: seq![start], position: 0 };
    assert(s.as_browser().back =~= Seq::<Seq<char>>::empty());
    assert(s.as_browser().forward =~= Seq::<Seq<char>>::empty());
    assert(s.as_browser() == (BrowserModel { back: Seq::empty(), current: start, forward: Seq::empty() }));
    lemma_history_matches_browser(s, ops);
}

/// A history that was just started has nothing to go back to.
pub proof fn lemma_fresh_history_cannot_go_back(p: Seq<char>)
    ensures
        !(Nav { history: seq![p], position: 0 }).can_back(),
        !(Nav { history: seq![p], position: 0 }).can_forward(),
{
}

/// After a visit one can go back, and going back returns to the directory
/// that was current before the visit, with nothing left ahead but the visit.
pub proof fn lemma_back_undoes_visit(s: Nav, p: Seq<char>)
    requires
        s.wf(),
    ensures
        s.visit(p).wf(),
        s.visit(p).can_back(),
        s.visit(p).back().current() == s.current(),
        !s.visit(p).can_forward(),
{
}

} // verus!
