//! Local audit metadata about sent messages. An entry records who, when, how
//! many bytes and with what outcome, never a message body or a seed phrase.

use vstd::prelude::*;

verus! {

broadcast use vstd::string::group_string_axioms;

/// One history record.
pub struct Entry {
    /// Seconds since the Unix epoch.
    pub timestamp: u64,
    /// Direction of the message, such as `sent`.
    pub direction: String,
    /// The peer's node ID.
    pub peer: String,
    /// Size of the message body in bytes.
    pub bytes: usize,
    /// How it ended, such as `sent`.
    pub outcome: String,
}

/// What an [`Entry`] holds.
pub struct EntryView {
    pub timestamp: u64,
    pub direction: Seq<char>,
    pub peer: Seq<char>,
    pub bytes: usize,
    pub outcome: Seq<char>,
}

impl View for Entry {
    type V = EntryView;

    open spec fn view(&self) -> EntryView {
        EntryView {
            timestamp: self.timestamp,
            direction: self.direction@,
            peer: self.peer@,
            bytes: self.bytes,
            outcome: self.outcome@,
        }
    }
}

impl Entry {
    /// The record of a message: its direction, peer, size and outcome, at
    /// `timestamp`.
    pub fn new(direction: &str, peer: &str, bytes: usize, outcome: &str, timestamp: u64) -> (r:
        Entry)
        ensures
            r@ == (EntryView {
                timestamp,
                direction: direction@,
                peer: peer@,
                bytes,
                outcome: outcome@,
            }),
    {
        Entry {
            timestamp,
            direction: direction.to_owned(),
            peer: peer.to_owned(),
            bytes,
            outcome: outcome.to_owned(),
        }
    }
}

/// The views of a sequence of entries.
pub open spec fn entry_views(s: Seq<Entry>) -> Seq<EntryView> {
    s.map_values(|e: Entry| e@)
}

/// The views of a sequence of lines each of which may have held an entry.
pub open spec fn maybe_entry_views(s: Seq<Option<Entry>>) -> Seq<Option<EntryView>> {
    s.map_values(
        |o: Option<Entry>|
            match o {
                Some(e) => Some(e@),
                None => None,
            },
    )
}

/// The entries that were read, in file order; lines that held none are left out.
pub open spec fn read_entries(s: Seq<Option<EntryView>>) -> Seq<EntryView>
    decreases s.len(),
{
    if s.len() == 0 {
        Seq::empty()
    } else {
        match s.last() {
            Some(e) => read_entries(s.drop_last()).push(e),
            None => read_entries(s.drop_last()),
        }
    }
}

/// The most recent entries first, at most `limit` of them, given the history
/// file's lines in order (`None` for a line that is not an entry).
pub fn recent(parsed: Vec<Option<Entry>>, limit: usize) -> (r: Vec<Entry>)
    ensures
        ({
            let all = read_entries(maybe_entry_views(parsed@));
            entry_views(r@) == all.reverse().take(
                if limit < all.len() {
                    limit as int
                } else {
                    all.len() as int
                },
            )
        }),
{
    let ghost src = maybe_entry_views(parsed@);
    let mut kept: Vec<Entry> = Vec::new();
    let mut rest = parsed;
    // Walk from the last line back, so the newest entry comes first.
    while rest.len() > 0 && kept.len() < limit
        invariant
            src == maybe_entry_views(parsed@),
            rest@ == parsed@.take(rest@.len() as int),
            rest@.len() <= parsed@.len(),
            kept@.len() <= limit,
            read_entries(src).reverse() == entry_views(kept@) + read_entries(
                maybe_entry_views(rest@),
            ).reverse(),
        decreases rest@.len(),
    {
        let ghost before_rest = maybe_entry_views(rest@);
        let item = rest.pop();
        assert(maybe_entry_views(rest@) =~= before_rest.drop_last());
        match item {
            Some(Some(e)) => {
                let ghost ev = e@;
                assert(before_rest.last() == Some(ev));
                let ghost before = kept@;
                kept.push(e);
                assert(entry_views(kept@) =~= entry_views(before).push(ev));
                assert(read_entries(before_rest) == read_entries(before_rest.drop_last()).push(ev));
                assert(read_entries(before_rest).reverse() =~= seq![ev] + read_entries(
                    before_rest.drop_last(),
                ).reverse());
                assert(entry_views(kept@) + read_entries(maybe_entry_views(rest@)).reverse()
                    =~= entry_views(before) + read_entries(before_rest).reverse());
            },
            _ => {
                assert(before_rest.last() is None);
                assert(read_entries(before_rest) == read_entries(before_rest.drop_last()));
            },
        }
    }
    proof {
        let all = read_entries(src);
        let k = if limit < all.len() {
            limit as int
        } else {
            all.len() as int
        };
        if rest@.len() == 0 {
            assert(maybe_entry_views(rest@) =~= Seq::<Option<EntryView>>::empty());
            assert(read_entries(maybe_entry_views(rest@)).reverse() =~= Seq::<EntryView>::empty());
            assert(all.reverse() =~= entry_views(kept@));
        }
        assert(all.reverse().take(k) =~= entry_views(kept@));
    }
    kept
}

} // verus!
