use vstd::prelude::*;
use crate::entry::Entry;
use crate::flags::OpenFlags;
use crate::id128::Id128;
use crate::{checked, SdResult};

verus! {

/// A position to move a journal's cursor to.
#[derive(Clone, Copy, Debug)]
pub enum Seek {
    /// Before the first entry.
    Head,
    /// After the last entry.
    Tail,
    /// Near a monotonic time, in microseconds, within one boot session.
    Monotonic { boot_id: Id128, usec: u64 },
    /// Near a wall-clock time, in microseconds.
    Realtime { usec: u64 },
}

/// An open journal: the options it was opened with, and whether its cursor
/// stands on an entry.
pub struct Journal {
    flags: OpenFlags,
    on_entry: bool,
}

/// The result of a single step: 1 is a new entry, 0 the boundary, anything
/// else a failure.
pub open spec fn step_result(ret: i32) -> SdResult<bool> {
    if ret == 0 {
        Ok(false)
    } else if ret == 1 {
        Ok(true)
    } else {
        Err(ret)
    }
}

/// The names that an enumeration of field names handed out, in order: those
/// of the calls before the first that reported the end (status 0).
pub open spec fn names_until_end(s: Seq<(i32, String)>) -> Seq<Seq<char>>
    decreases s.len(),
{
    if s.len() == 0 || s[0].0 == 0 {
        Seq::empty()
    } else {
        seq![s[0].1@].add(names_until_end(s.drop_first()))
    }
}

/// The views of a list of names.
pub open spec fn name_views(v: Seq<String>) -> Seq<Seq<char>> {
    v.map_values(|x: String| x@)
}

impl Journal {
    pub closed spec fn spec_flags(&self) -> OpenFlags {
        self.flags
    }

    /// The cursor stands on an entry.
    pub closed spec fn spec_on_entry(&self) -> bool {
        self.on_entry
    }

    /// The journal that an open call with `flags` gave, from its status `ret`.
    /// A negative status is the error; the cursor starts before the first entry.
    pub fn open(flags: OpenFlags, ret: i32) -> (r: SdResult<Journal>)
        ensures
            ret < 0 ==> (r matches Err(e) && e == ret),
            ret >= 0 ==> (r matches Ok(j) && j.spec_flags() == flags && !j.spec_on_entry()),
    {
        match checked(ret) {
            Err(e) => Err(e),
            Ok(_) => Ok(Journal { flags, on_entry: false }),
        }
    }

    pub fn flags(&self) -> (r: OpenFlags)
        ensures
            r == self.spec_flags(),
    {
        self.flags
    }

    pub fn on_entry(&self) -> (r: bool)
        ensures
            r == self.spec_on_entry(),
    {
        self.on_entry
    }

    /// The bytes that the journal's files take, from the status `ret` of the
    /// usage query and the size `bytes` that it reported.
    pub fn usage(&self, ret: i32, bytes: u64) -> (r: SdResult<u64>)
        ensures
            ret < 0 ==> r == Err::<u64, i32>(ret),
            ret >= 0 ==> r == Ok::<u64, i32>(bytes),
    {
        match checked(ret) {
            Err(e) => Err(e),
            Ok(_) => Ok(bytes),
        }
    }

    /// Moves the cursor to a position, from the status `ret` of the seek call
    /// made for it. Whatever the position, a seek lands on no entry: a step
    /// must follow.
    pub fn seek(&mut self, _pos: Seek, ret: i32) -> (r: SdResult<()>)
        ensures
            ret < 0 ==> (r == Err::<(), i32>(ret) && final(self).spec_on_entry() == old(self).spec_on_entry()),
            ret >= 0 ==> (r is Ok && !final(self).spec_on_entry()),
            final(self).spec_flags() == old(self).spec_flags(),
    {
        match checked(ret) {
            Err(e) => Err(e),
            Ok(_) => {
                self.on_entry = false;
                Ok(())
            },
        }
    }

    fn step(&mut self, ret: i32) -> (r: SdResult<bool>)
        ensures
            r == step_result(ret),
            final(self).spec_flags() == old(self).spec_flags(),
            final(self).spec_on_entry() == match r {
                Ok(b) => b,
                Err(_) => old(self).spec_on_entry(),
            },
    {
        if ret == 0 {
            self.on_entry = false;
            Ok(false)
        } else if ret == 1 {
            self.on_entry = true;
            Ok(true)
        } else {
            Err(ret)
        }
    }

    /// Steps forward by one entry, from the status `ret` of the step call:
    /// `Ok(true)` on a new entry, `Ok(false)` at the tail.
    pub fn next(&mut self, ret: i32) -> (r: SdResult<bool>)
        ensures
            r == step_result(ret),
            final(self).spec_flags() == old(self).spec_flags(),
            final(self).spec_on_entry() == match r {
                Ok(b) => b,
                Err(_) => old(self).spec_on_entry(),
            },
    {
        self.step(ret)
    }

    /// Steps back by one entry, from the status `ret` of the step call:
    /// `Ok(true)` on a new entry, `Ok(false)` at the head.
    pub fn previous(&mut self, ret: i32) -> (r: SdResult<bool>)
        ensures
            r == step_result(ret),
            final(self).spec_flags() == old(self).spec_flags(),
            final(self).spec_on_entry() == match r {
                Ok(b) => b,
                Err(_) => old(self).spec_on_entry(),
            },
    {
        self.step(ret)
    }

    /// The call that `skip(n)` makes: forward (`true`) for `n >= 0`, backward
    /// otherwise, and by how many entries.
    pub fn skip_call(n: i64) -> (r: (bool, u64))
        ensures
            r.0 == (n >= 0),
            r.1 as int == if n >= 0 { n as int } else { -(n as int) },
    {
        if n >= 0 {
            (true, n as u64)
        } else {
            (false, (-(n as i128)) as u64)
        }
    }

    /// Skips by a number of entries (see `skip_call`), from the status `ret`
    /// of the batched step call: the number of entries passed, which is less
    /// than asked where a boundary came first. Only a negative status is an
    /// error.
    pub fn skip(&mut self, _n: i64, ret: i32) -> (r: SdResult<u64>)
        ensures
            ret < 0 ==> r == Err::<u64, i32>(ret),
            ret >= 0 ==> r == Ok::<u64, i32>(ret as u64),
            final(self).spec_flags() == old(self).spec_flags(),
            final(self).spec_on_entry() == (old(self).spec_on_entry() || ret > 0),
    {
        match checked(ret) {
            Err(e) => Err(e),
            Ok(count) => {
                if count > 0 {
                    self.on_entry = true;
                }
                Ok(count as u64)
            },
        }
    }

    /// The entry under the cursor.
    pub fn entry(&mut self) -> (r: Entry<'_>)
        ensures
            r.spec_journal() == *old(self),
            *final(self) == *old(self),
    {
        Entry::new(self)
    }

    /// Steps forward and gives the new entry, or `None` at the tail. A failed
    /// step is fatal, so the status must be one of a step's results.
    pub fn next_entry(&mut self, ret: i32) -> (r: Option<Entry<'_>>)
        requires
            ret == 0 || ret == 1,
        ensures
            r is Some <==> ret == 1,
            r matches Some(e) ==> e.spec_journal().spec_on_entry(),
            final(self).spec_on_entry() == (ret == 1),
    {
        match self.next(ret) {
            Ok(true) => Some(self.entry()),
            _ => None,
        }
    }

    /// Steps back and gives the new entry, or `None` at the head. A failed
    /// step is fatal, so the status must be one of a step's results.
    pub fn previous_entry(&mut self, ret: i32) -> (r: Option<Entry<'_>>)
        requires
            ret == 0 || ret == 1,
        ensures
            r is Some <==> ret == 1,
            r matches Some(e) ==> e.spec_journal().spec_on_entry(),
            final(self).spec_on_entry() == (ret == 1),
    {
        match self.previous(ret) {
            Ok(true) => Some(self.entry()),
            _ => None,
        }
    }

    /// Every field name used in the journal's files, from the results of the
    /// enumeration calls in order: each a status and the name it gave. The
    /// first status 0 ends the list; a negative status is a fatal failure,
    /// so the caller stops before handing one over.
    pub fn all_fields(&mut self, results: &Vec<(i32, String)>) -> (r: Vec<String>)
        requires
            forall|i: int| 0 <= i < results@.len() ==> #[trigger] results@[i].0 >= 0,
        ensures
            name_views(r@) == names_until_end(results@),
            *final(self) == *old(self),
    {
        let mut names: Vec<String> = Vec::new();
        let n = results.len();
        let mut i: usize = 0;
        proof {
            assert(results@.subrange(0, n as int) =~= results@);
            assert(name_views(names@) =~= Seq::<Seq<char>>::empty());
            assert(name_views(names@) + names_until_end(results@) =~= names_until_end(results@));
        }
        while i < n && results[i].0 != 0
            invariant
                i <= n,
                n == results@.len(),
                name_views(names@) + names_until_end(results@.subrange(i as int, n as int))
                    == names_until_end(results@),
            decreases n - i,
        {
            let name = results[i].1.clone();
            proof {
                let rest = results@.subrange(i as int, n as int);
                assert(rest[0] == results@[i as int]);
                assert(rest.drop_first() =~= results@.subrange(i as int + 1, n as int));
                assert(name_views(names@.push(name)) =~= name_views(names@).push(name@));
            }
            names.push(name);
            proof {
                let rest = results@.subrange(i as int, n as int);
                let after = names_until_end(results@.subrange(i as int + 1, n as int));
                assert(names_until_end(rest) == seq![results@[i as int].1@].add(after));
                assert(name_views(names@) + after =~= name_views(names@.drop_last()) + names_until_end(rest));
            }
            i = i + 1;
        }
        proof {
            let rest = results@.subrange(i as int, n as int);
            assert(names_until_end(rest) =~= Seq::<Seq<char>>::empty()) by {
                if i < n {
                    assert(rest[0] == results@[i as int]);
                }
            }
            assert(name_views(names@) + names_until_end(rest) =~= name_views(names@));
        }
        names
    }
}

} // verus!
