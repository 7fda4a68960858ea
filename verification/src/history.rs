//! The scan history: newest entry first, at most `MAX_ENTRIES` entries, the
//! oldest purged first. Loading and saving the list and deleting thumbnail
//! files are done by the caller; here the list changes are decided.
use vstd::prelude::*;
use crate::content_type::FieldMap;

verus! {

/// Most entries the history keeps.
pub const MAX_ENTRIES: usize = 100;

/// One scan in the history.
#[derive(Debug, Clone)]
pub struct ScanEntry {
    pub id: String,
    pub scanned_at: String,
    pub result: String,
    pub result_type: String,
    pub parsed_data: Option<FieldMap>,
    pub source_type: String,
    pub source_name: Option<String>,
    pub thumbnail_file: Option<String>,
}

/// A new history list, and the entries taken out of it (whose thumbnails
/// are to be deleted).
#[derive(Debug, Clone)]
pub struct HistoryUpdate {
    pub entries: Vec<ScanEntry>,
    pub removed: Vec<ScanEntry>,
}

/// The list once `entry` is put in front of `old`.
pub open spec fn with_new(old: Seq<ScanEntry>, entry: ScanEntry) -> Seq<ScanEntry> {
    seq![entry] + old
}

/// What stays of the list after adding: its first `MAX_ENTRIES` entries.
pub open spec fn add_kept(old: Seq<ScanEntry>, entry: ScanEntry) -> Seq<ScanEntry> {
    let all = with_new(old, entry);
    if all.len() <= MAX_ENTRIES {
        all
    } else {
        all.take(MAX_ENTRIES as int)
    }
}

/// What adding purges: the entries beyond `MAX_ENTRIES`, last one first.
pub open spec fn add_purged(old: Seq<ScanEntry>, entry: ScanEntry) -> Seq<ScanEntry> {
    let all = with_new(old, entry);
    if all.len() <= MAX_ENTRIES {
        Seq::empty()
    } else {
        Seq::new((all.len() - MAX_ENTRIES) as nat, |k: int| all[all.len() - 1 - k])
    }
}

/// Puts `entry` first; entries beyond `MAX_ENTRIES` are purged, oldest first.
pub fn add_entry(entries: Vec<ScanEntry>, entry: ScanEntry) -> (r: HistoryUpdate)
    ensures
        r.entries@ == add_kept(entries@, entry),
        r.removed@ == add_purged(entries@, entry),
{
    let ghost all = with_new(entries@, entry);
    let ghost old_entries = entries@;
    let ghost new_entry = entry;
    let mut entries = entries;
    entries.insert(0, entry);
    assert(entries@ =~= all);
    let mut removed: Vec<ScanEntry> = Vec::new();
    while entries.len() > MAX_ENTRIES
        invariant
            MAX_ENTRIES <= entries.len() <= all.len() || entries@ == all,
            entries@ == all.take(entries.len() as int),
            entries.len() <= all.len(),
            removed.len() == all.len() - entries.len(),
            forall|k: int| 0 <= k < removed.len() ==> #[trigger] removed@[k] == all[all.len() - 1 - k],
        decreases entries.len(),
    {
        let old_len = entries.len();
        match entries.pop() {
            Some(e) => {
                assert(e == all[old_len - 1]);
                removed.push(e);
                assert(entries@ =~= all.take(entries.len() as int));
            },
            None => {},
        }
    }
    proof {
        if all.len() <= MAX_ENTRIES {
            assert(entries@ =~= all);
            assert(removed@ =~= Seq::<ScanEntry>::empty());
        } else {
            assert(entries.len() == MAX_ENTRIES);
            assert(removed@ =~= add_purged(old_entries, new_entry));
        }
    }
    HistoryUpdate { entries, removed }
}

/// Index of the first entry at or after `i` whose id is `id` (or the length).
pub open spec fn id_pos_from(s: Seq<ScanEntry>, id: Seq<char>, i: int) -> int
    decreases s.len() - i,
{
    if i < 0 || i >= s.len() {
        s.len() as int
    } else if s[i].id@ == id {
        i
    } else {
        id_pos_from(s, id, i + 1)
    }
}

/// The list after deleting the first entry with id `id`, and that entry.
pub open spec fn delete_spec(s: Seq<ScanEntry>, id: Seq<char>) -> (Seq<ScanEntry>, Option<ScanEntry>) {
    let k = id_pos_from(s, id, 0);
    if k < s.len() {
        (s.remove(k), Some(s[k]))
    } else {
        (s, None)
    }
}

/// Takes the first entry whose id is `id` out of the list, if there is one.
pub fn delete_entry(entries: Vec<ScanEntry>, id: &str) -> (r: (Vec<ScanEntry>, Option<ScanEntry>))
    ensures
        (r.0@, r.1) == delete_spec(entries@, id@),
{
    let key = String::from_str(id);
    let mut i: usize = 0;
    while i < entries.len()
        invariant
            i <= entries.len(),
            key@ == id@,
            id_pos_from(entries@, id@, 0) == id_pos_from(entries@, id@, i as int),
        decreases entries.len() - i,
    {
        if entries[i].id == key {
            let mut entries = entries;
            let removed = entries.remove(i);
            return (entries, Some(removed));
        }
        i = i + 1;
    }
    (entries, None)
}

/// Clearing the history: nothing stays, everything is taken out.
pub fn clear_all(entries: Vec<ScanEntry>) -> (r: HistoryUpdate)
    ensures
        r.entries@ == Seq::<ScanEntry>::empty(),
        r.removed@ == entries@,
{
    HistoryUpdate { entries: Vec::new(), removed: entries }
}

/// The thumbnail files named by `s`, in order.
pub open spec fn thumbnails_of(s: Seq<ScanEntry>) -> Seq<Seq<char>>
    decreases s.len(),
{
    if s.len() == 0 {
        Seq::empty()
    } else {
        match s.last().thumbnail_file {
            Some(f) => thumbnails_of(s.drop_last()).push(f@),
            None => thumbnails_of(s.drop_last()),
        }
    }
}

/// The thumbnail files of the given entries, to be deleted with them.
pub fn thumbnail_files(entries: &Vec<ScanEntry>) -> (r: Vec<String>)
    ensures
        r.deep_view() == thumbnails_of(entries@),
{
    let mut out: Vec<String> = Vec::new();
    let mut i: usize = 0;
    assert(entries@.take(0) =~= Seq::<ScanEntry>::empty());
    assert(out.deep_view() =~= Seq::<Seq<char>>::empty());
    while i < entries.len()
        invariant
            i <= entries.len(),
            out.deep_view() == thumbnails_of(entries@.take(i as int)),
        decreases entries.len() - i,
    {
        let ghost pre = entries@.take(i as int + 1);
        assert(pre.drop_last() =~= entries@.take(i as int));
        assert(pre.last() == entries@[i as int]);
        match &entries[i].thumbnail_file {
            Some(f) => {
                let ghost before = out.deep_view();
                out.push(f.clone());
                assert(out.deep_view() =~= before.push(f@));
            },
            None => {},
        }
        i = i + 1;
    }
    assert(entries@.take(i as int) =~= entries@);
    out
}

/// Deleting by the id of an entry just added undoes the addition, as long as
/// nothing was purged: the earlier list comes back, and the deleted entry is
/// the one added.
pub proof fn law_delete_undoes_add(old: Seq<ScanEntry>, entry: ScanEntry)
    requires
        old.len() < MAX_ENTRIES,
    ensures
        add_purged(old, entry) == Seq::<ScanEntry>::empty(),
        delete_spec(add_kept(old, entry), entry.id@) == (old, Some(entry)),
{
    let all = with_new(old, entry);
    assert(add_kept(old, entry) == all);
    assert(id_pos_from(all, entry.id@, 0) == 0);
    assert(all.remove(0) =~= old);
}

proof fn lemma_id_pos_first(s: Seq<ScanEntry>, id: Seq<char>, i: int, k: int)
    requires
        0 <= i <= k <= s.len(),
        forall|j: int| i <= j < k ==> #[trigger] s[j].id@ != id,
    ensures
        id_pos_from(s, id, i) == id_pos_from(s, id, k),
    decreases k - i,
{
    if i < k {
        lemma_id_pos_first(s, id, i + 1, k);
    }
}

/// Deleting by id takes out the first entry with that id, wherever it
/// stands: the list loses exactly that entry, the others keep their order,
/// and the entry is handed back.
pub proof fn law_delete_first_match(s: Seq<ScanEntry>, id: Seq<char>, k: int)
    requires
        0 <= k < s.len(),
        s[k].id@ == id,
        forall|j: int| 0 <= j < k ==> #[trigger] s[j].id@ != id,
    ensures
        delete_spec(s, id) == (s.remove(k), Some(s[k])),
        delete_spec(s, id).0.len() == s.len() - 1,
        forall|j: int| 0 <= j < k ==> #[trigger] delete_spec(s, id).0[j] == s[j],
        forall|j: int| k <= j < s.len() - 1 ==> #[trigger] delete_spec(s, id).0[j] == s[j + 1],
{
    lemma_id_pos_first(s, id, 0, k);
}

/// Deleting an id that no entry has changes nothing and hands back nothing.
pub proof fn law_delete_absent(s: Seq<ScanEntry>, id: Seq<char>)
    requires
        forall|j: int| 0 <= j < s.len() ==> #[trigger] s[j].id@ != id,
    ensures
        delete_spec(s, id) == (s, Option::<ScanEntry>::None),
{
    lemma_id_pos_first(s, id, 0, s.len() as int);
}

/// Adding never loses an entry: what is kept, followed by what is purged in
/// reverse, is the new list; the added entry comes first and the list never
/// exceeds `MAX_ENTRIES`.
pub proof fn law_add_keeps_all(old: Seq<ScanEntry>, entry: ScanEntry)
    ensures
        add_kept(old, entry) + add_purged(old, entry).reverse() == with_new(old, entry),
        add_kept(old, entry).len() <= MAX_ENTRIES,
        add_kept(old, entry)[0] == entry,
{
    let all = with_new(old, entry);
    if all.len() <= MAX_ENTRIES {
        assert(add_purged(old, entry).reverse() =~= Seq::<ScanEntry>::empty());
        assert(add_kept(old, entry) + add_purged(old, entry).reverse() =~= all);
    } else {
        assert(add_kept(old, entry) + add_purged(old, entry).reverse() =~= all);
    }
}

} // verus!
