//! Reading the write-ahead log from a position on.

use vstd::prelude::*;

verus! {

/// The entries of `log` from position `start` on; none when `start` is at or
/// past the end.
pub open spec fn entries_after<T>(log: Seq<T>, start: int) -> Seq<T> {
    if 0 <= start < log.len() {
        log.subrange(start, log.len() as int)
    } else {
        Seq::<T>::empty()
    }
}

/// Keeps the entries of `all` from position `start` on (what a reader that has
/// consumed `start` entries has not seen yet).
pub fn entries_since<T>(all: Vec<T>, start: usize) -> (rest: Vec<T>)
    ensures
        rest@ == entries_after(all@, start as int),
        rest.len() == if start < all.len() { all.len() - start } else { 0 },
        forall|i: int| 0 <= i < rest.len() ==> #[trigger] rest@[i] == all@[start + i],
{
    let mut all = all;
    if start < all.len() {
        all.split_off(start)
    } else {
        Vec::new()
    }
}

/// Reading from position 0 gives the whole log; reading from `start` gives
/// `len - start` entries (none past the end); and what lies before `start`
/// followed by what is read from `start` is the whole log.
pub proof fn lemma_entries_after_partition<T>(log: Seq<T>, start: nat)
    ensures
        entries_after(log, 0) == log,
        entries_after(log, start as int).len() == if start < log.len() { (log.len() - start) as nat } else { 0 },
        start <= log.len() ==> log.take(start as int) + entries_after(log, start as int) == log,
{
    if log.len() > 0 {
        assert(log.subrange(0, log.len() as int) =~= log);
    } else {
        assert(entries_after(log, 0) =~= log);
    }
    if start <= log.len() {
        if start < log.len() {
            assert(log.take(start as int) + entries_after(log, start as int) =~= log);
        } else {
            assert(log.take(start as int) =~= log);
            assert(log.take(start as int) + entries_after(log, start as int) =~= log);
        }
    }
}

} // verus!
