//! What a directory lists.

use vstd::prelude::*;

use crate::kernel::{told, told_entry, told_name, Entry, EntryState, IoError, Told};
use crate::text::texts;

verus! {

/// The entries of a directory as they were read.
pub type Entries = Vec<Result<Entry, IoError>>;

/// The names of entries.
pub open spec fn told_entries(entries: Entries) -> Seq<Result<Seq<char>, Told>> {
    entries@.map_values(|e: Result<Entry, IoError>| told_name(e))
}

/// Entries by all their names.
pub open spec fn entry_states(entries: Seq<Entry>) -> Seq<EntryState> {
    entries.map_values(|e: Entry| e@)
}

/// What could be read.
pub open spec fn readable<T>(entries: Seq<Result<T, Told>>) -> Seq<T>
    decreases entries.len(),
{
    if entries.len() == 0 {
        seq![]
    } else {
        let before = readable(entries.drop_last());
        match entries.last() {
            Ok(found) => before.push(found),
            Err(_) => before,
        }
    }
}

/// The first entry that could not be read.
pub open spec fn first_unreadable(entries: Seq<Result<Seq<char>, Told>>) -> Option<Told>
    decreases entries.len(),
{
    if entries.len() == 0 {
        None
    } else {
        match entries[0] {
            Ok(_) => first_unreadable(entries.drop_first()),
            Err(err) => Some(err),
        }
    }
}

/// All names, or the first entry that could not be read.
pub open spec fn all_names(entries: Seq<Result<Seq<char>, Told>>) -> Result<Seq<Seq<char>>, Told> {
    match first_unreadable(entries) {
        Some(err) => Err(err),
        None => Ok(readable(entries)),
    }
}

pub fn copy_error(err: &IoError) -> (r: IoError)
    ensures
        told(r) == told(*err),
{
    IoError { kind: err.kind, message: err.message.clone() }
}

/// The names that could be read, leaving out what could not.
pub fn readable_names(entries: &Entries) -> (r: Vec<String>)
    ensures
        texts(r@) == readable(told_entries(*entries)),
{
    let ghost all = told_entries(*entries);
    let mut r: Vec<String> = Vec::new();
    let mut i: usize = 0;
    assert(texts(r@) =~= seq![]);
    while i < entries.len()
        invariant
            i <= entries.len(),
            all == told_entries(*entries),
            texts(r@) == readable(all.take(i as int)),
        decreases entries.len() - i,
    {
        proof {
            assert(all.take(i + 1).drop_last() =~= all.take(i as int));
            assert(all.take(i + 1).last() == told_name(entries@[i as int]));
        }
        let ghost before = r@;
        match &entries[i] {
            Ok(entry) => {
                r.push(entry.name.clone());
                assert(texts(r@) =~= texts(before).push(entry.name@));
            },
            Err(_) => {},
        }
        i = i + 1;
    }
    assert(all.take(i as int) =~= all);
    r
}

/// The entries that could be read, leaving out what could not.
pub fn readable_entries(entries: &Entries) -> (r: Vec<Entry>)
    ensures
        entry_states(r@) == readable(
            entries@.map_values(|e: Result<Entry, IoError>| told_entry(e)),
        ),
{
    let ghost all = entries@.map_values(|e: Result<Entry, IoError>| told_entry(e));
    let mut r: Vec<Entry> = Vec::new();
    let mut i: usize = 0;
    assert(entry_states(r@) =~= seq![]);
    while i < entries.len()
        invariant
            i <= entries.len(),
            all == entries@.map_values(|e: Result<Entry, IoError>| told_entry(e)),
            entry_states(r@) == readable(all.take(i as int)),
        decreases entries.len() - i,
    {
        proof {
            assert(all.take(i + 1).drop_last() =~= all.take(i as int));
            assert(all.take(i + 1).last() == told_entry(entries@[i as int]));
        }
        let ghost before = r@;
        match &entries[i] {
            Ok(entry) => {
                r.push(entry.clone());
                assert(entry_states(r@) =~= entry_states(before).push(entry@));
            },
            Err(_) => {},
        }
        i = i + 1;
    }
    assert(all.take(i as int) =~= all);
    r
}

/// All names, or the first entry that could not be read.
pub fn every_name(entries: &Entries) -> (r: Result<Vec<String>, IoError>)
    ensures
        match r {
            Ok(names) => all_names(told_entries(*entries)) == Ok::<Seq<Seq<char>>, Told>(
                texts(names@),
            ),
            Err(err) => all_names(told_entries(*entries)) == Err::<Seq<Seq<char>>, Told>(
                told(err),
            ),
        },
{
    let ghost all = told_entries(*entries);
    let mut i: usize = 0;
    assert(all.skip(0) =~= all);
    while i < entries.len()
        invariant
            i <= entries.len(),
            all == told_entries(*entries),
            first_unreadable(all) == first_unreadable(all.skip(i as int)),
        decreases entries.len() - i,
    {
        proof {
            assert(all.skip(i as int).drop_first() =~= all.skip(i + 1));
            assert(all.skip(i as int)[0] == told_name(entries@[i as int]));
        }
        match &entries[i] {
            Ok(_) => {},
            Err(err) => {
                return Err(copy_error(err));
            },
        }
        i = i + 1;
    }
    Ok(readable_names(entries))
}

/// The names in front of the first entry that could not be read.
pub open spec fn readable_before(entries: Seq<Result<Seq<char>, Told>>) -> Seq<Seq<char>>
    decreases entries.len(),
{
    if entries.len() == 0 {
        seq![]
    } else {
        match entries[0] {
            Ok(name) => seq![name] + readable_before(entries.drop_first()),
            Err(_) => seq![],
        }
    }
}

/// The names in front of the first entry that could not be read.
pub fn names_before_error(entries: &Entries) -> (r: Vec<String>)
    ensures
        texts(r@) == readable_before(told_entries(*entries)),
{
    let ghost all = told_entries(*entries);
    let mut r: Vec<String> = Vec::new();
    let mut i: usize = 0;
    proof {
        assert(all.skip(0) =~= all);
        assert(texts(r@) + readable_before(all) =~= readable_before(all));
    }
    while i < entries.len()
        invariant
            i <= entries.len(),
            all == told_entries(*entries),
            texts(r@) + readable_before(all.skip(i as int)) == readable_before(all),
        decreases entries.len() - i,
    {
        proof {
            assert(all.skip(i as int).drop_first() =~= all.skip(i + 1));
            assert(all.skip(i as int)[0] == told_name(entries@[i as int]));
        }
        let ghost before = r@;
        match &entries[i] {
            Ok(entry) => {
                r.push(entry.name.clone());
                let ghost rest = readable_before(all.skip(i + 1));
                assert(texts(r@) + rest =~= texts(before) + (seq![entry.name@] + rest));
            },
            Err(_) => {
                assert(texts(r@) + seq![] =~= texts(r@));
                return r;
            },
        }
        i = i + 1;
    }
    assert(texts(r@) + seq![] =~= texts(r@));
    r
}

/// What came of the first entry that could not be read.
pub fn first_error(entries: &Entries) -> (r: Option<IoError>)
    ensures
        match r {
            Some(err) => first_unreadable(told_entries(*entries)) == Some(told(err)),
            None => first_unreadable(told_entries(*entries)) is None,
        },
{
    match every_name(entries) {
        Ok(_) => None,
        Err(err) => Some(err),
    }
}

// --- What holds of listings --------------------------------------------------

/// What can be read of two listings is what can be read of each, and of one
/// entry it is that entry where it could be read: nothing that could be read is
/// lost.
pub proof fn readable_keeps_everything_read<T>(a: Seq<Result<T, Told>>, b: Seq<Result<T, Told>>)
    ensures
        readable(a + b) == readable(a) + readable(b),
        forall|found: T| readable(seq![Ok::<T, Told>(found)]) == seq![found],
        forall|err: Told| #[trigger]
            readable(seq![Err::<T, Told>(err)]) == Seq::<T>::empty(),
        forall|found: T|
            #![trigger readable(a).contains(found)]
            #![trigger a.contains(Ok::<T, Told>(found))]
            readable(a).contains(found) <==> a.contains(Ok::<T, Told>(found)),
        readable(a).len() == a.filter(|e: Result<T, Told>| e is Ok).len(),
{
    lemma_readable_append(a, b);
    lemma_readable_all(a);
    reveal_with_fuel(readable, 2);
    assert forall|found: T| readable(seq![Ok::<T, Told>(found)]) == seq![found] by {
        assert(seq![Ok::<T, Told>(found)].drop_last() =~= seq![]);
    }
    assert forall|err: Told| #[trigger]
        readable(seq![Err::<T, Told>(err)]) == Seq::<T>::empty() by {
        assert(seq![Err::<T, Told>(err)].drop_last() =~= seq![]);
    }
}

proof fn lemma_readable_append<T>(a: Seq<Result<T, Told>>, b: Seq<Result<T, Told>>)
    ensures
        readable(a + b) == readable(a) + readable(b),
    decreases b.len(),
{
    if b.len() == 0 {
        assert(a + b =~= a);
    } else {
        assert((a + b).drop_last() =~= a + b.drop_last());
        lemma_readable_append(a, b.drop_last());
    }
}

proof fn lemma_readable_all<T>(a: Seq<Result<T, Told>>)
    ensures
        forall|found: T|
            #![trigger readable(a).contains(found)]
            #![trigger a.contains(Ok::<T, Told>(found))]
            readable(a).contains(found) <==> a.contains(Ok::<T, Told>(found)),
        readable(a).len() == a.filter(|e: Result<T, Told>| e is Ok).len(),
    decreases a.len(),
{
    reveal(Seq::filter);
    if a.len() > 0 {
        let front = a.drop_last();
        lemma_readable_all(front);
        assert forall|found: T|
            #![trigger readable(a).contains(found)]
            #![trigger a.contains(Ok::<T, Told>(found))]
            readable(a).contains(found) <==> a.contains(Ok::<T, Told>(found)) by {
            let all = readable(a);
            let before = readable(front);
            if all.contains(found) {
                let i = choose|i: int| 0 <= i < all.len() && all[i] == found;
                if i < before.len() {
                    assert(before[i] == found);
                    assert(front.contains(Ok::<T, Told>(found)));
                    let j = choose|j: int| 0 <= j < front.len() && front[j] == Ok::<T, Told>(found);
                    assert(a[j] == Ok::<T, Told>(found));
                } else {
                    assert(a[a.len() - 1] == Ok::<T, Told>(found));
                }
            }
            if a.contains(Ok::<T, Told>(found)) {
                let i = choose|i: int| 0 <= i < a.len() && a[i] == Ok::<T, Told>(found);
                if i < front.len() {
                    assert(front[i] == Ok::<T, Told>(found));
                    assert(before.contains(found));
                    let j = choose|j: int| 0 <= j < before.len() && before[j] == found;
                    assert(all[j] == found);
                } else {
                    assert(all[all.len() - 1] == found);
                }
            }
        }
    }
}

/// A listing is refused for the first entry in it that could not be read, and
/// for nothing else; without one it is read whole, in its order.
pub proof fn a_listing_is_read_up_to_its_first_fault(
    names: Seq<Seq<char>>,
    fault: Told,
    rest: Seq<Result<Seq<char>, Told>>,
)
    ensures
        ({
            let read = names.map_values(|name: Seq<char>| Ok::<Seq<char>, Told>(name));
            let broken = read + seq![Err::<Seq<char>, Told>(fault)] + rest;
            &&& first_unreadable(read) is None
            &&& all_names(read) == Ok::<Seq<Seq<char>>, Told>(names)
            &&& readable_before(read) == names
            &&& first_unreadable(broken) == Some(fault)
            &&& all_names(broken) == Err::<Seq<Seq<char>>, Told>(fault)
            &&& readable_before(broken) == names
        }),
    decreases names.len(),
{
    let read = names.map_values(|name: Seq<char>| Ok::<Seq<char>, Told>(name));
    let broken = read + seq![Err::<Seq<char>, Told>(fault)] + rest;
    if names.len() > 0 {
        let names_on = names.drop_first();
        let read_on = names_on.map_values(|name: Seq<char>| Ok::<Seq<char>, Told>(name));
        a_listing_is_read_up_to_its_first_fault(names_on, fault, rest);
        assert(read.drop_first() =~= read_on);
        assert(broken.drop_first() =~= read_on + seq![Err::<Seq<char>, Told>(fault)] + rest);
        assert(read =~= seq![read[0]] + read_on);
        assert(names =~= seq![names[0]] + names_on);
        readable_keeps_everything_read(seq![read[0]], read_on);
        assert(readable(seq![Ok::<Seq<char>, Told>(names[0])]) == seq![names[0]]);
    } else {
        assert(read =~= seq![]);
        assert(names =~= seq![]);
        assert(broken[0] == Err::<Seq<char>, Told>(fault));
    }
}

/// A listing shows each of its entries, in its place.
pub proof fn a_listing_shows_each_entry(entries: Entries, names: Seq<Entry>, i: int)
    ensures
        told_entries(entries).len() == entries@.len(),
        0 <= i < entries@.len() ==> told_entries(entries)[i] == (match entries@[i] {
            Ok(entry) => Ok::<Seq<char>, Told>(entry.name@),
            Err(err) => Err((err.kind, err.message@)),
        }),
        entry_states(names).len() == names.len(),
        0 <= i < names.len() ==> entry_states(names)[i].name == names[i].name@ && entry_states(
            names,
        )[i].raw == names[i].raw@,
{
}

} // verus!
