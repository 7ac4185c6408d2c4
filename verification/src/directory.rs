//! The actor directory: the registry mapping each actor name to the sending
//! handle of its mailbox. Names are unique; registering a name that is
//! already present fails and changes nothing.

use crate::error::AppError;
use crate::mailbox::CommandHandler;
use crate::text::lower_of;
use vstd::prelude::*;
use vstd::string::StringExecFns;

verus! {

/// The registry of running actors: `(name, send handle)` entries with
/// pairwise distinct names. Its view is the sequence of registered names in
/// registration order.
pub struct Directory {
    entries: Vec<(String, CommandHandler)>,
}

impl View for Directory {
    type V = Seq<Seq<char>>;

    closed spec fn view(&self) -> Seq<Seq<char>> {
        Seq::new(self.entries@.len(), |i: int| self.entries@[i].0@)
    }
}

/// The registry transition that registering a name makes: an absent name is
/// appended and accepted, a present one is refused and the names are left as
/// they were.
pub open spec fn spec_register(names: Seq<Seq<char>>, n: Seq<char>) -> (Seq<Seq<char>>, bool) {
    if names.contains(n) {
        (names, false)
    } else {
        (names.push(n), true)
    }
}

/// The text of the error reported when a name is started twice.
pub open spec fn start_error_text(name: Seq<char>) -> Seq<char> {
    "worker with name: "@ + name + " already has been started."@
}

/// The message of the error reported when a name is started twice.
pub fn start_error_message(name: &String) -> (r: String)
    ensures
        r@ == start_error_text(name@),
{
    let mut msg = String::from_str("worker with name: ");
    msg.append(name.as_str());
    msg.append(" already has been started.");
    msg
}

impl Directory {
    /// Names are pairwise distinct.
    pub open spec fn wf(&self) -> bool {
        forall|i: int, j: int| 0 <= i < j < self@.len() ==> self@[i] != self@[j]
    }

    /// An empty directory.
    pub fn new() -> (d: Directory)
        ensures
            d.wf(),
            d@ == Seq::<Seq<char>>::empty(),
    {
        let d = Directory { entries: Vec::new() };
        proof {
            assert(d@ =~= Seq::<Seq<char>>::empty());
        }
        d
    }

    /// The position of the entry registered under `name`, if any.
    fn find(&self, name: &String) -> (r: Option<usize>)
        ensures
            match r {
                Some(i) => i < self@.len() && self@[i as int] == name@,
                None => !self@.contains(name@),
            },
    {
        let mut i: usize = 0;
        while i < self.entries.len()
            invariant
                i <= self.entries@.len(),
                self@.len() == self.entries@.len(),
                forall|j: int| 0 <= j < i ==> self@[j] != name@,
            decreases self.entries@.len() - i,
        {
            if self.entries[i].0.eq(name) {
                proof {
                    assert(self@[i as int] == self.entries@[i as int].0@);
                }
                return Some(i);
            }
            proof {
                assert(self@[i as int] == self.entries@[i as int].0@);
            }
            i = i + 1;
        }
        proof {
            assert forall|k: int| 0 <= k < self@.len() implies self@[k] != name@ by {}
        }
        None
    }

    /// Whether an actor of the given name is registered.
    pub fn contains_name(&self, name: &String) -> (r: bool)
        ensures
            r == self@.contains(name@),
    {
        match self.find(name) {
            Some(_) => true,
            None => false,
        }
    }

    /// Registers a new actor name with the sending handle of its mailbox: a
    /// fresh name is appended and accepted; a name already present is
    /// refused with an error naming the conflict, and the directory is left
    /// untouched.
    pub fn register(&mut self, name: String, handler: CommandHandler) -> (r: Result<(), AppError>)
        requires
            old(self).wf(),
        ensures
            final(self).wf(),
            final(self)@ == spec_register(old(self)@, name@).0,
            (r is Ok) == spec_register(old(self)@, name@).1,
            r is Ok <==> !old(self)@.contains(name@),
            r is Err ==> *final(self) == *old(self),
            r matches Err(e) ==> e.message@ == lower_of(start_error_text(name@)),
    {
        match self.find(&name) {
            Some(_) => {
                let msg = start_error_message(&name);
                Err(AppError::throw(msg.as_str()))
            },
            None => {
                let ghost before = self@;
                self.entries.push((name, handler));
                proof {
                    assert(self@ =~= before.push(self.entries@.last().0@));
                    assert forall|i: int, j: int| 0 <= i < j < self@.len() implies self@[i]
                        != self@[j] by {
                        if j == self@.len() - 1 {
                            assert(!before.contains(self@[j]));
                            assert(before[i] == self@[i]);
                        }
                    }
                }
                Ok(())
            },
        }
    }

    /// The sending handle registered under `name`, if any; read-only.
    pub fn lookup(&self, name: &String) -> (r: Option<&CommandHandler>)
        ensures
            (r is Some) == self@.contains(name@),
    {
        match self.find(name) {
            Some(i) => {
                proof {
                    assert(self@.contains(name@));
                }
                Some(&self.entries[i].1)
            },
            None => None,
        }
    }
}

/// Starting a name succeeds exactly once: a fresh name is accepted; a second
/// start of the same name is always refused and leaves the directory, and so
/// every registered mailbox, exactly as it was.
pub proof fn lemma_start_exactly_once(names: Seq<Seq<char>>, n: Seq<char>)
    ensures
        spec_register(names, n).1 == !names.contains(n),
        spec_register(spec_register(names, n).0, n).1 == false,
        spec_register(spec_register(names, n).0, n).0 == spec_register(names, n).0,
{
    if !names.contains(n) {
        assert(names.push(n)[names.len() as int] == n);
        assert(names.push(n).contains(n));
    }
}

} // verus!
