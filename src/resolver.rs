//! The argument resolver: hands out argument values by sequential or explicit
//! position and remembers which ones have been used.
use vstd::prelude::*;

verus! {

/// Every slot of `used` is marked.
pub open spec fn all_marked(used: Seq<bool>) -> bool {
    forall|i: int| 0 <= i < used.len() ==> #[trigger] used[i]
}

/// Positional arguments of one formatting call. A sequential cursor serves
/// `{}`, explicit positions serve `{n}`; both mark the slot they read as used.
pub struct PosArguments<'a> {
    args: &'a [String],
    state: Vec<bool>,
    index: usize,
}

/// The resolver under the name that the formatting entry points use for it.
pub type ArgumentsIter<'a> = PosArguments<'a>;

impl<'a> PosArguments<'a> {
    /// The argument values.
    pub closed spec fn args(&self) -> Seq<String> {
        self.args@
    }

    /// For each argument, whether it has been handed out.
    pub closed spec fn used(&self) -> Seq<bool> {
        self.state@
    }

    /// The position that the next sequential request reads.
    pub closed spec fn cursor(&self) -> int {
        self.index as int
    }

    pub closed spec fn wf(&self) -> bool {
        &&& self.state@.len() == self.args@.len()
        &&& self.index <= self.args@.len()
    }

    /// A well-formed resolver has one mark per argument and its cursor within them.
    pub proof fn lemma_wf(&self)
        requires
            self.wf(),
        ensures
            self.used().len() == self.args().len(),
            0 <= self.cursor() <= self.args().len(),
    {
    }

    /// A resolver over `args` with no argument used yet.
    pub fn new(args: &'a [String]) -> (r: Self)
        ensures
            r.wf(),
            r.args() == args@,
            r.used() == Seq::new(args@.len(), |i: int| false),
            r.cursor() == 0,
    {
        let mut state: Vec<bool> = Vec::new();
        let mut i: usize = 0;
        while i < args.len()
            invariant
                i <= args@.len(),
                state@ == Seq::new(i as nat, |j: int| false),
            decreases args@.len() - i,
        {
            state.push(false);
            i = i + 1;
        }
        PosArguments { args, state, index: 0 }
    }

    /// The argument at position `i`, marked used; `None` when there is no such
    /// argument. The sequential cursor does not move.
    pub fn get(&mut self, i: usize) -> (r: Option<&'a String>)
        requires
            old(self).wf(),
        ensures
            final(self).wf(),
            final(self).args() == old(self).args(),
            final(self).cursor() == old(self).cursor(),
            i < old(self).args().len() ==> r == Some(&old(self).args()[i as int])
                && final(self).used() == old(self).used().update(i as int, true),
            i >= old(self).args().len() ==> r is None && final(self).used() == old(self).used(),
    {
        if i < self.state.len() {
            let result = &self.args[i];
            self.state.set(i, true);
            Some(result)
        } else {
            None
        }
    }

    /// The argument at the sequential cursor, marked used, after which the
    /// cursor moves on; `None` when all positions have been passed.
    pub fn next(&mut self) -> (r: Option<&'a String>)
        requires
            old(self).wf(),
        ensures
            final(self).wf(),
            final(self).args() == old(self).args(),
            old(self).cursor() < old(self).args().len() ==> {
                &&& r == Some(&old(self).args()[old(self).cursor()])
                &&& final(self).used() == old(self).used().update(old(self).cursor(), true)
                &&& final(self).cursor() == old(self).cursor() + 1
            },
            old(self).cursor() >= old(self).args().len() ==> {
                &&& r is None
                &&& final(self).used() == old(self).used()
                &&& final(self).cursor() == old(self).cursor()
            },
    {
        if self.index < self.state.len() {
            let result = &self.args[self.index];
            self.state.set(self.index, true);
            self.index = self.index + 1;
            Some(result)
        } else {
            None
        }
    }

    /// True when every argument has been handed out at least once.
    pub fn is_empty(&self) -> (r: bool)
        requires
            self.wf(),
        ensures
            r == all_marked(self.used()),
    {
        let mut i: usize = 0;
        while i < self.state.len()
            invariant
                i <= self.state@.len(),
                forall|j: int| 0 <= j < i ==> #[trigger] self.state@[j],
            decreases self.state@.len() - i,
        {
            if !self.state[i] {
                return false;
            }
            i = i + 1;
        }
        true
    }
}

} // verus!
