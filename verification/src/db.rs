//! The history store: entries in insertion order, and the queries over them.

use crate::error::CrlError;
use crate::text::{parse_i64, spec_parse_i64, str_le, text_le};
use vstd::prelude::*;
use vstd::string::*;

verus! {

/// A clipboard text that is not stored yet.
#[derive(Debug, PartialEq, Eq)]
pub struct Crl {
    pub text: String,
}

impl View for Crl {
    type V = Seq<char>;

    open spec fn view(&self) -> Seq<char> {
        self.text@
    }
}

impl Crl {
    /// A clipboard text that holds `text`.
    pub fn new(text: &str) -> (r: Crl)
        ensures
            r@ == text@,
    {
        Crl { text: text.to_owned() }
    }
}

/// A stored clipboard text, with the id and the time that the store gave it.
#[derive(Debug, PartialEq, Eq)]
pub struct SavedCrl {
    pub crl: Crl,
    pub id: i64,
    pub created_at: String,
}

/// What a stored entry says: its id, its text and its time of creation.
pub struct Entry {
    pub id: int,
    pub text: Seq<char>,
    pub created_at: Seq<char>,
}

impl View for SavedCrl {
    type V = Entry;

    open spec fn view(&self) -> Entry {
        Entry { id: self.id as int, text: self.crl.text@, created_at: self.created_at@ }
    }
}

impl Clone for Crl {
    fn clone(&self) -> (r: Crl)
        ensures
            r@ == self@,
    {
        Crl { text: self.text.clone() }
    }
}

impl Clone for SavedCrl {
    fn clone(&self) -> (r: SavedCrl)
        ensures
            r@ == self@,
    {
        SavedCrl { crl: self.crl.clone(), id: self.id, created_at: self.created_at.clone() }
    }
}

/// What a list of stored entries says, entry by entry.
pub open spec fn entries(rows: Seq<SavedCrl>) -> Seq<Entry> {
    rows.map_values(|row: SavedCrl| row@)
}

/// What an optional stored entry says.
pub open spec fn optional_entry(row: Option<SavedCrl>) -> Option<Entry> {
    match row {
        Some(row) => Some(row@),
        None => None,
    }
}

/// The order that the store keeps: later entries have greater ids and no
/// earlier times.
pub open spec fn ordered(s: Seq<Entry>) -> bool {
    forall|i: int, j: int|
        0 <= i < j < s.len() ==> (#[trigger] s[i]).id < (#[trigger] s[j]).id && text_le(
            s[i].created_at,
            s[j].created_at,
        )
}

/// `input` brought into `[min, max]`; the upper bound wins where the bounds cross.
pub open spec fn spec_neutralize_num(input: u32, min: u32, max: u32) -> u32 {
    if input > max {
        max
    } else if input < min {
        min
    } else {
        input
    }
}

/// Clamps `input` into `[min, max]`.
pub fn neutralize_num(input: u32, min: u32, max: u32) -> (r: u32)
    ensures
        r == spec_neutralize_num(input, min, max),
        min <= max ==> min <= r <= max,
        min <= input <= max ==> r == input,
{
    if input > max {
        max
    } else if input < min {
        min
    } else {
        input
    }
}

/// Where the history lies while the program is under test.
pub const TEST_DB_PATH: &'static str = "./test-db.sql";

/// The directory of the program's files, below the home directory `home`.
pub open spec fn spec_app_dir(home: Seq<char>) -> Seq<char> {
    home + "/Library/Application Support/crl/"@
}

/// The directory of the program's files, below the home directory `home`.
pub fn get_app_dir(home: &str) -> (r: String)
    ensures
        r@ == spec_app_dir(home@),
{
    String::from_str(home).concat("/Library/Application Support/crl/")
}

/// The file that holds the history, below the home directory `home`.
pub fn get_app_path(home: &str) -> (r: String)
    ensures
        r@ == spec_app_dir(home@) + "db.sql"@,
{
    get_app_dir(home).concat("db.sql")
}

/// The most entries that one listing returns.
pub const MAX_LISTED: u32 = 50;

/// The newest entry of `s`, if it has any.
pub open spec fn spec_latest(s: Seq<Entry>) -> Option<Entry> {
    if s.len() == 0 {
        None
    } else {
        Some(s.last())
    }
}

/// The `limit` newest entries of `s`, or all of them if it has fewer, the
/// newest first.
pub open spec fn newest_first(s: Seq<Entry>, limit: nat) -> Seq<Entry> {
    Seq::new(
        if limit <= s.len() {
            limit
        } else {
            s.len()
        },
        |i: int| s[s.len() - 1 - i],
    )
}

/// Whether `s` holds an entry with the id `id`.
pub open spec fn has_id(s: Seq<Entry>, id: int) -> bool {
    exists|i: int| 0 <= i < s.len() && (#[trigger] s[i]).id == id
}

/// The id that the next entry of `s` gets.
pub open spec fn next_id(s: Seq<Entry>) -> int {
    if s.len() == 0 {
        1
    } else {
        s.last().id + 1
    }
}

/// The time that the next entry of `s` gets when the clock says `now`: `now`,
/// unless the newest entry is later.
pub open spec fn next_stamp(s: Seq<Entry>, now: Seq<char>) -> Seq<char> {
    if s.len() > 0 && !text_le(s.last().created_at, now) {
        s.last().created_at
    } else {
        now
    }
}

/// The entry that `s` gets for `text` at the time `now`.
pub open spec fn next_entry(s: Seq<Entry>, text: Seq<char>, now: Seq<char>) -> Entry {
    Entry { id: next_id(s), text, created_at: next_stamp(s, now) }
}

/// Whether `s` can take one more entry: the id after its newest is still an id.
pub open spec fn has_room(s: Seq<Entry>) -> bool {
    next_id(s) <= i64::MAX
}

/// The history: every entry, the oldest first.
pub struct Store {
    rows: Vec<SavedCrl>,
}

impl View for Store {
    type V = Seq<Entry>;

    closed spec fn view(&self) -> Seq<Entry> {
        entries(self.rows@)
    }
}

impl Store {
    /// Whether the entries are in the order that a store keeps. Every
    /// operation on the history expects this and keeps it.
    pub open spec fn wf(&self) -> bool {
        ordered(self@)
    }

    /// A history without entries.
    pub fn new() -> (r: Store)
        ensures
            r.wf(),
            r@ == Seq::<Entry>::empty(),
    {
        let r = Store { rows: Vec::new() };
        assert(r@ =~= Seq::<Entry>::empty());
        r
    }

    /// The history that holds `rows`, the oldest first. There is none where
    /// `rows` are not in the order that a store keeps.
    pub fn from_rows(rows: Vec<SavedCrl>) -> (r: Option<Store>)
        ensures
            match r {
                Some(store) => store.wf() && store@ == entries(rows@),
                None => !ordered(entries(rows@)),
            },
    {
        let ghost s = entries(rows@);
        if rows.len() == 0 {
            return Some(Store { rows });
        }
        let mut i: usize = 1;
        while i < rows.len()
            invariant
                s == entries(rows@),
                1 <= i <= rows@.len(),
                ordered(s.take(i as int)),
            decreases rows.len() - i,
        {
            let earlier = &rows[i - 1];
            let later = &rows[i];
            assert(s[i as int] == later@ && s[i - 1] == earlier@);
            if earlier.id >= later.id || !str_le(earlier.created_at.as_str(), later.created_at.as_str()) {
                return None;
            }
            proof {
                assert forall|a: int, b: int| 0 <= a < b < i + 1 implies (#[trigger] s.take(
                    i + 1,
                )[a]).id < (#[trigger] s.take(i + 1)[b]).id && text_le(
                    s.take(i + 1)[a].created_at,
                    s.take(i + 1)[b].created_at,
                ) by {
                    if b < i {
                        assert(s.take(i as int)[a] == s[a] && s.take(i as int)[b] == s[b]);
                    } else if a < i - 1 {
                        assert(s.take(i as int)[a] == s[a] && s.take(i as int)[i - 1] == s[i - 1]);
                        crate::text::lemma_text_le_trans(
                            s[a].created_at,
                            s[i - 1].created_at,
                            s[i as int].created_at,
                        );
                    }
                }
            }
            i += 1;
        }
        assert(s.take(i as int) =~= s);
        Some(Store { rows })
    }

    /// The history that holds `rows`, the oldest first, with their times made
    /// to rise: a row whose time is earlier than that of the row before it
    /// gets that time. There is none where the ids of `rows` do not rise.
    pub fn from_rows_mended(rows: Vec<SavedCrl>) -> (r: Option<Store>)
        ensures
            match r {
                Some(store) => ids_rise(entries(rows@)) && store.wf() && store@ == mended(
                    entries(rows@),
                ),
                None => !ids_rise(entries(rows@)),
            },
    {
        let ghost s = entries(rows@);
        let mut kept: Vec<SavedCrl> = Vec::new();
        let mut i: usize = 0;
        assert(entries(kept@) =~= mended(s.take(0)));
        while i < rows.len()
            invariant
                s == entries(rows@),
                i <= rows@.len(),
                ids_rise(s.take(i as int)),
                entries(kept@) == mended(s.take(i as int)),
                kept@.len() == i,
            decreases rows@.len() - i,
        {
            let row = &rows[i];
            assert(s[i as int] == row@);
            let ghost head = mended(s.take(i as int));
            proof {
                assert(s.take(i + 1).drop_last() =~= s.take(i as int));
                assert(s.take(i + 1).last() == row@);
            }
            let created_at = if i == 0 {
                row.created_at.clone()
            } else {
                let newest = &kept[i - 1];
                assert(head.last() == newest@);
                assert(s[i - 1] == rows@[i - 1]@);
                proof {
                    lemma_mended_keeps_entries(s.take(i as int));
                    assert(s.take(i as int)[i - 1] == s[i - 1]);
                }
                if rows[i - 1].id >= row.id {
                    assert(s[i - 1].id >= s[i as int].id);
                    return None;
                }
                if str_le(newest.created_at.as_str(), row.created_at.as_str()) {
                    row.created_at.clone()
                } else {
                    newest.created_at.clone()
                }
            };
            proof {
                assert forall|a: int, b: int| 0 <= a < b < i + 1 implies (#[trigger] s.take(
                    i + 1,
                )[a]).id < (#[trigger] s.take(i + 1)[b]).id by {
                    if b < i {
                        assert(s.take(i as int)[a] == s[a] && s.take(i as int)[b] == s[b]);
                    } else if a < i - 1 {
                        assert(s.take(i as int)[a] == s[a] && s.take(i as int)[i - 1] == s[i - 1]);
                    }
                }
            }
            let mended_row = SavedCrl { crl: row.crl.clone(), id: row.id, created_at };
            assert(mended_row@ == mended(s.take(i + 1)).last());
            kept.push(mended_row);
            assert(entries(kept@) =~= mended(s.take(i + 1)));
            i += 1;
        }
        proof {
            assert(s.take(i as int) =~= s);
            lemma_mended_is_ordered(s);
        }
        Some(Store { rows: kept })
    }

    /// The entries, the oldest first.
    pub fn rows(&self) -> (r: &Vec<SavedCrl>)
        ensures
            entries(r@) == self@,
    {
        &self.rows
    }

    /// How many entries the history holds.
    pub fn len(&self) -> (n: usize)
        ensures
            n == self@.len(),
    {
        self.rows.len()
    }
}

/// Deletes every entry. Returns how many there were.
pub fn reset(store: &mut Store) -> (n: usize)
    ensures
        final(store).wf(),
        final(store)@ == Seq::<Entry>::empty(),
        newest_first(final(store)@, MAX_LISTED as nat) == Seq::<Entry>::empty(),
        n == old(store)@.len(),
{
    let n = store.rows.len();
    store.rows = Vec::new();
    assert(store@ =~= Seq::<Entry>::empty());
    proof {
        lemma_nothing_to_list(MAX_LISTED as nat);
    }
    n
}

/// The newest entries, the newest first: as many as `limit` asks for, never
/// more than `MAX_LISTED`.
pub fn get_many(store: &Store, limit: u32) -> (r: Vec<SavedCrl>)
    ensures
        entries(r@) == newest_first(store@, spec_neutralize_num(limit, 0, MAX_LISTED) as nat),
{
    let limit = neutralize_num(limit, 0, MAX_LISTED);
    let n = store.rows.len();
    let count: usize = if (limit as usize) <= n {
        limit as usize
    } else {
        n
    };
    let mut found: Vec<SavedCrl> = Vec::new();
    let mut i: usize = 0;
    while i < count
        invariant
            n == store.rows@.len(),
            count <= n,
            i <= count,
            found@.len() == i,
            forall|k: int| 0 <= k < i ==> (#[trigger] found@[k])@ == store.rows@[n - 1 - k]@,
        decreases count - i,
    {
        found.push(store.rows[n - 1 - i].clone());
        i += 1;
    }
    assert(entries(found@) =~= newest_first(store@, limit as nat));
    found
}

/// The newest entry, if there is any.
pub fn get_latest(store: &Store) -> (r: Option<SavedCrl>)
    ensures
        optional_entry(r) == spec_latest(store@),
{
    let n = store.rows.len();
    if n == 0 {
        None
    } else {
        let row = store.rows[n - 1].clone();
        assert(store@.last() == store.rows@[n - 1]@);
        Some(row)
    }
}

/// The entry whose id the numeral `id` writes, if there is one. Fails where
/// `id` is no numeral of a 64-bit integer.
pub fn get_one(store: &Store, id: &str) -> (r: Result<Option<SavedCrl>, CrlError>)
    ensures
        match r {
            Ok(Some(row)) => spec_parse_i64(id@) == Some(row.id) && store@.contains(row@),
            Ok(None) => spec_parse_i64(id@).is_some() && !has_id(
                store@,
                spec_parse_i64(id@).unwrap() as int,
            ),
            Err(e) => e == CrlError::InvalidId && spec_parse_i64(id@).is_none(),
        },
{
    let wanted = match parse_i64(id) {
        Some(wanted) => wanted,
        None => {
            return Err(CrlError::InvalidId);
        },
    };
    let mut i: usize = 0;
    while i < store.rows.len()
        invariant
            spec_parse_i64(id@) == Some(wanted),
            i <= store.rows@.len(),
            forall|k: int| 0 <= k < i ==> (#[trigger] store.rows@[k]).id != wanted,
        decreases store.rows@.len() - i,
    {
        if store.rows[i].id == wanted {
            let row = store.rows[i].clone();
            assert(store@[i as int] == row@);
            return Ok(Some(row));
        }
        i += 1;
    }
    assert forall|k: int| 0 <= k < store@.len() implies (#[trigger] store@[k]).id != wanted by {
        assert(store@[k] == store.rows@[k]@);
    }
    Ok(None)
}

/// Appends `crl` as the newest entry and returns its id. The entry gets the
/// time `now`, or the time of the entry before it where that is later. Fails,
/// and leaves the history as it was, where no id is left.
pub fn save_new_crl(store: &mut Store, crl: &Crl, now: &str) -> (r: Result<i64, CrlError>)
    requires
        old(store).wf(),
    ensures
        final(store).wf(),
        match r {
            Ok(id) => has_room(old(store)@) && id == next_id(old(store)@) && final(store)@ == old(store)@.push(next_entry(old(store)@, crl@, now@)),
            Err(e) => e == CrlError::StorageUnavailable && !has_room(old(store)@) && final(store)@
                == old(store)@,
        },
{
    let ghost before = store@;
    let n = store.rows.len();
    let row = if n == 0 {
        SavedCrl { crl: crl.clone(), id: 1, created_at: now.to_owned() }
    } else {
        let newest = &store.rows[n - 1];
        assert(before.last() == newest@);
        if newest.id == i64::MAX {
            return Err(CrlError::StorageUnavailable);
        }
        let created_at = if str_le(newest.created_at.as_str(), now) {
            now.to_owned()
        } else {
            newest.created_at.clone()
        };
        SavedCrl { crl: crl.clone(), id: newest.id + 1, created_at }
    };
    let id = row.id;
    proof {
        assert(row@ == next_entry(before, crl@, now@));
        assert(entries(store.rows@.push(row)) =~= before.push(row@));
        lemma_insert_keeps_order(before, crl@, now@);
    }
    store.rows.push(row);
    Ok(id)
}

/// An entry with a greater id and no earlier time than the newest keeps the
/// order when it is appended.
pub proof fn lemma_push_keeps_order(s: Seq<Entry>, entry: Entry)
    requires
        ordered(s),
        s.len() > 0 ==> s.last().id < entry.id && text_le(s.last().created_at, entry.created_at),
    ensures
        ordered(s.push(entry)),
{
    let after = s.push(entry);
    assert forall|a: int, b: int| 0 <= a < b < after.len() implies (#[trigger] after[a]).id < (
    #[trigger] after[b]).id && text_le(after[a].created_at, after[b].created_at) by {
        if b == s.len() {
            let newest = s.last();
            assert(after[a] == s[a]);
            if a < s.len() - 1 {
                assert(s[a].id < newest.id && text_le(s[a].created_at, newest.created_at));
                crate::text::lemma_text_le_trans(
                    s[a].created_at,
                    newest.created_at,
                    entry.created_at,
                );
            }
        } else {
            assert(after[a] == s[a] && after[b] == s[b]);
        }
    }
}

/// The time that an entry gets is never earlier than the newest entry's.
pub proof fn lemma_stamp_is_no_earlier(s: Seq<Entry>, now: Seq<char>)
    requires
        s.len() > 0,
    ensures
        text_le(s.last().created_at, next_stamp(s, now)),
{
    crate::text::lemma_text_le_refl(s.last().created_at);
}

/// Appending the next entry keeps the order of the store.
pub proof fn lemma_insert_keeps_order(s: Seq<Entry>, text: Seq<char>, now: Seq<char>)
    requires
        ordered(s),
    ensures
        ordered(s.push(next_entry(s, text, now))),
{
    if s.len() > 0 {
        lemma_stamp_is_no_earlier(s, now);
    }
    lemma_push_keeps_order(s, next_entry(s, text, now));
}

/// Whether the ids of `s` rise from each entry to the next.
pub open spec fn ids_rise(s: Seq<Entry>) -> bool {
    forall|i: int, j: int| 0 <= i < j < s.len() ==> (#[trigger] s[i]).id < (#[trigger] s[j]).id
}

/// The entries `s` with their times made to rise: each entry keeps its id and
/// its text, and gets the time of the entry before it where its own is earlier.
pub open spec fn mended(s: Seq<Entry>) -> Seq<Entry>
    decreases s.len(),
{
    if s.len() == 0 {
        s
    } else {
        let head = mended(s.drop_last());
        head.push(
            Entry {
                id: s.last().id,
                text: s.last().text,
                created_at: next_stamp(head, s.last().created_at),
            },
        )
    }
}

/// Mending changes no id and no text, and neither adds nor drops an entry.
pub proof fn lemma_mended_keeps_entries(s: Seq<Entry>)
    ensures
        mended(s).len() == s.len(),
        forall|i: int|
            0 <= i < s.len() ==> (#[trigger] mended(s)[i]).id == s[i].id && mended(s)[i].text
                == s[i].text,
    decreases s.len(),
{
    if s.len() > 0 {
        lemma_mended_keeps_entries(s.drop_last());
        assert forall|i: int| 0 <= i < s.len() implies (#[trigger] mended(s)[i]).id == s[i].id
            && mended(s)[i].text == s[i].text by {
            if i < s.len() - 1 {
                assert(mended(s)[i] == mended(s.drop_last())[i]);
                assert(s.drop_last()[i] == s[i]);
            }
        }
    }
}

/// Entries whose ids rise are in the order of a store once they are mended.
pub proof fn lemma_mended_is_ordered(s: Seq<Entry>)
    requires
        ids_rise(s),
    ensures
        ordered(mended(s)),
    decreases s.len(),
{
    if s.len() > 0 {
        let front = s.drop_last();
        assert forall|i: int, j: int| 0 <= i < j < front.len() implies (#[trigger] front[i]).id < (
        #[trigger] front[j]).id by {
            assert(front[i] == s[i] && front[j] == s[j]);
        }
        lemma_mended_is_ordered(front);
        lemma_mended_keeps_entries(front);
        let head = mended(front);
        if head.len() > 0 {
            lemma_stamp_is_no_earlier(head, s.last().created_at);
            assert(head.last().id == front[front.len() - 1].id);
            assert(front[front.len() - 1] == s[s.len() - 2]);
            assert(s[s.len() - 2].id < s[s.len() - 1].id);
        }
        lemma_push_keeps_order(head, mended(s).last());
        assert(mended(s) =~= head.push(mended(s).last()));
    }
}

/// Entries that are in the order of a store need no mending.
pub proof fn lemma_ordered_needs_no_mending(s: Seq<Entry>)
    requires
        ordered(s),
    ensures
        mended(s) == s,
    decreases s.len(),
{
    if s.len() > 0 {
        let front = s.drop_last();
        assert forall|i: int, j: int| 0 <= i < j < front.len() implies (#[trigger] front[i]).id < (
        #[trigger] front[j]).id && text_le(front[i].created_at, front[j].created_at) by {
            assert(front[i] == s[i] && front[j] == s[j]);
        }
        lemma_ordered_needs_no_mending(front);
        if front.len() > 0 {
            assert(front.last() == s[s.len() - 2]);
            assert(text_le(s[s.len() - 2].created_at, s[s.len() - 1].created_at));
        }
        assert(mended(s) =~= s);
    }
}

/// The newest entry has the greatest time of creation and the greatest id.
pub proof fn lemma_latest_is_greatest(s: Seq<Entry>)
    requires
        ordered(s),
        s.len() > 0,
    ensures
        forall|i: int|
            0 <= i < s.len() ==> text_le((#[trigger] s[i]).created_at, s.last().created_at)
                && s[i].id <= s.last().id,
{
    assert forall|i: int| 0 <= i < s.len() implies text_le(
        (#[trigger] s[i]).created_at,
        s.last().created_at,
    ) && s[i].id <= s.last().id by {
        if i < s.len() - 1 {
            assert(s[i].id < s[s.len() - 1].id);
        } else {
            crate::text::lemma_text_le_refl(s.last().created_at);
        }
    }
}

/// A listing runs from the newest entry back: each entry is followed by one
/// that was created no later and has a smaller id.
pub proof fn lemma_listing_is_sorted(s: Seq<Entry>, limit: nat)
    requires
        ordered(s),
    ensures
        forall|a: int, b: int|
            0 <= a < b < newest_first(s, limit).len() ==> text_le(
                (#[trigger] newest_first(s, limit)[b]).created_at,
                (#[trigger] newest_first(s, limit)[a]).created_at,
            ) && newest_first(s, limit)[b].id < newest_first(s, limit)[a].id,
{
    let listed = newest_first(s, limit);
    assert forall|a: int, b: int| 0 <= a < b < listed.len() implies text_le(
        (#[trigger] listed[b]).created_at,
        (#[trigger] listed[a]).created_at,
    ) && listed[b].id < listed[a].id by {
        let i = s.len() - 1 - b;
        let j = s.len() - 1 - a;
        assert(s[i].id < s[j].id && text_le(s[i].created_at, s[j].created_at));
    }
}

/// A listing of one entry holds the newest entry, and nothing where there is
/// none.
pub proof fn lemma_latest_heads_listing(s: Seq<Entry>)
    ensures
        newest_first(s, 1) == (match spec_latest(s) {
            Some(newest) => seq![newest],
            None => Seq::<Entry>::empty(),
        }),
{
    if s.len() == 0 {
        assert(newest_first(s, 1) =~= Seq::<Entry>::empty());
    } else {
        assert(newest_first(s, 1) =~= seq![s.last()]);
    }
}

/// A limit above `MAX_LISTED` lists what `MAX_LISTED` lists, and the limit 0
/// lists nothing.
pub proof fn lemma_listing_is_clamped(s: Seq<Entry>, limit: u32)
    ensures
        limit > MAX_LISTED ==> newest_first(s, spec_neutralize_num(limit, 0, MAX_LISTED) as nat)
            == newest_first(s, spec_neutralize_num(MAX_LISTED, 0, MAX_LISTED) as nat),
        newest_first(s, spec_neutralize_num(0, 0, MAX_LISTED) as nat) == Seq::<Entry>::empty(),
        newest_first(s, spec_neutralize_num(limit, 0, MAX_LISTED) as nat).len() <= MAX_LISTED,
{
    assert(newest_first(s, 0) =~= Seq::<Entry>::empty());
}

/// An empty history lists nothing, whatever the limit.
pub proof fn lemma_nothing_to_list(limit: nat)
    ensures
        newest_first(Seq::<Entry>::empty(), limit) == Seq::<Entry>::empty(),
        spec_latest(Seq::<Entry>::empty()) is None,
{
    assert(newest_first(Seq::<Entry>::empty(), limit) =~= Seq::<Entry>::empty());
}

/// No two entries of a store share an id.
pub proof fn lemma_ids_are_unique(s: Seq<Entry>, i: int, j: int)
    requires
        ordered(s),
        0 <= i < s.len(),
        0 <= j < s.len(),
        s[i].id == s[j].id,
    ensures
        i == j,
{
    if i < j {
        assert(s[i].id < s[j].id);
    } else if j < i {
        assert(s[j].id < s[i].id);
    }
}

} // verus!
