use vstd::prelude::*;
use crate::data::{insert_outcome, DataView, ListView, NvData, NvList, PairView};
use crate::error::{has_nul, Error, ErrorView};
use crate::ser::list_outcome;

verus! {

/// The empty list in which a name may occur more than once.
pub open spec fn empty_list() -> ListView {
    ListView { unique: false, pairs: Seq::empty() }
}

/// For each name an entry without a value.
pub open spec fn flag_entries(names: Seq<String>) -> Seq<PairView> {
    Seq::new(names.len(), |i: int| PairView { name: names[i]@, data: DataView::Bool })
}

/// For each pair an entry whose name is the first text and whose value is the second.
pub open spec fn text_entries(pairs: Seq<(String, String)>) -> Seq<PairView> {
    Seq::new(pairs.len(), |i: int| PairView { name: pairs[i].0@, data: DataView::Str(pairs[i].1@) })
}

/// An entry that is refused decides the outcome of all insertions.
pub proof fn lemma_inserted_all_error_stays(l: ListView, entries: Seq<PairView>, i: nat, n: nat)
    requires
        i <= n <= entries.len(),
    ensures
        l.inserted_all(entries, i) is Err ==> l.inserted_all(entries, n) == l.inserted_all(
            entries,
            i,
        ),
    decreases n,
{
    if i < n {
        lemma_inserted_all_error_stays(l, entries, i, (n - 1) as nat);
    }
}

/// The list that names the snapshots to make or to destroy: for each name an
/// entry without a value, in order. A name with a NUL character in it is refused.
pub fn snapshot_list(snaps: &Vec<String>) -> (r: Result<NvList, Error>)
    ensures
        list_outcome(r, empty_list().inserted_all(flag_entries(snaps@), snaps@.len())),
{
    let ghost entries = flag_entries(snaps@);
    let mut list = NvList::new();
    let mut i: usize = 0;
    while i < snaps.len()
        invariant
            i <= snaps.len(),
            entries == flag_entries(snaps@),
            empty_list().inserted_all(entries, i as nat) == Ok::<_, ErrorView>(list@),
        decreases snaps.len() - i,
    {
        proof {
            lemma_inserted_all_error_stays(empty_list(), entries, (i + 1) as nat, entries.len());
        }
        match list.add_boolean(snaps[i].as_str()) {
            Err(e) => {
                return Err(e);
            },
            Ok(()) => {},
        }
        i += 1;
    }
    Ok(list)
}

/// The list that asks for holds, or for bookmarks: for each pair an entry
/// whose name is the first text (the snapshot to hold, or the bookmark to
/// make) and whose value is the second (the name of the hold, or the source
/// of the bookmark), in order. Text with a NUL character in it is refused.
pub fn text_list(pairs: &Vec<(String, String)>) -> (r: Result<NvList, Error>)
    ensures
        list_outcome(r, empty_list().inserted_all(text_entries(pairs@), pairs@.len())),
{
    let ghost entries = text_entries(pairs@);
    let mut list = NvList::new();
    let mut i: usize = 0;
    while i < pairs.len()
        invariant
            i <= pairs.len(),
            entries == text_entries(pairs@),
            empty_list().inserted_all(entries, i as nat) == Ok::<_, ErrorView>(list@),
        decreases pairs.len() - i,
    {
        proof {
            lemma_inserted_all_error_stays(empty_list(), entries, (i + 1) as nat, entries.len());
        }
        let value = NvData::Str(pairs[i].1.clone());
        match list.insert_data(pairs[i].0.as_str(), value) {
            Err(e) => {
                return Err(e);
            },
            Ok(()) => {},
        }
        i += 1;
    }
    Ok(list)
}

/// The list that asks for holds: see `text_list`.
pub fn hold_list(holds: &Vec<(String, String)>) -> (r: Result<NvList, Error>)
    ensures
        list_outcome(r, empty_list().inserted_all(text_entries(holds@), holds@.len())),
{
    text_list(holds)
}

/// The list that asks for bookmarks: see `text_list`.
pub fn bookmark_list(bookmarks: &Vec<(String, String)>) -> (r: Result<NvList, Error>)
    ensures
        list_outcome(r, empty_list().inserted_all(text_entries(bookmarks@), bookmarks@.len())),
{
    text_list(bookmarks)
}

/// What `release_list` gives for the first `n` snapshots.
pub open spec fn spec_release_list(holds: Seq<(String, Vec<String>)>, n: nat) -> Result<
    ListView,
    ErrorView,
>
    decreases n,
{
    if n == 0 || n > holds.len() {
        Ok(empty_list())
    } else {
        match spec_release_list(holds, (n - 1) as nat) {
            Err(e) => Err(e),
            Ok(l) => match empty_list().inserted_all(
                flag_entries(holds[n - 1].1@),
                holds[n - 1].1@.len(),
            ) {
                Err(e) => Err(e),
                Ok(inner) => l.inserted(holds[n - 1].0@, DataView::NvList(inner)),
            },
        }
    }
}

/// A snapshot that is refused decides the outcome for the whole list.
pub proof fn lemma_release_list_error_stays(holds: Seq<(String, Vec<String>)>, i: nat, n: nat)
    requires
        i <= n <= holds.len(),
    ensures
        spec_release_list(holds, i) is Err ==> spec_release_list(holds, n) == spec_release_list(
            holds,
            i,
        ),
    decreases n,
{
    if i < n {
        lemma_release_list_error_stays(holds, i, (n - 1) as nat);
    }
}

/// The list that asks for the release of holds: for each snapshot an entry
/// of its name that holds a list, in which each hold to release has an entry
/// without a value. Text with a NUL character in it is refused.
pub fn release_list(holds: &Vec<(String, Vec<String>)>) -> (r: Result<NvList, Error>)
    ensures
        list_outcome(r, spec_release_list(holds@, holds@.len())),
{
    let mut list = NvList::new();
    let mut i: usize = 0;
    while i < holds.len()
        invariant
            i <= holds.len(),
            spec_release_list(holds@, i as nat) == Ok::<_, ErrorView>(list@),
        decreases holds.len() - i,
    {
        proof {
            lemma_release_list_error_stays(holds@, (i + 1) as nat, holds@.len());
        }
        let inner = match snapshot_list(&holds[i].1) {
            Err(e) => {
                return Err(e);
            },
            Ok(inner) => inner,
        };
        match list.insert_data(holds[i].0.as_str(), NvData::from_list(inner)) {
            Err(e) => {
                return Err(e);
            },
            Ok(()) => {},
        }
        i += 1;
    }
    Ok(list)
}

/// The arguments of a request to write a pool's changes to its devices: one
/// entry, `force`, that says whether to do so even where nothing changed.
pub fn sync_args(force: bool) -> (r: NvList)
    ensures
        r@ == (ListView {
            unique: true,
            pairs: seq![PairView { name: "force"@, data: DataView::BoolV(force) }],
        }),
{
    let mut args = NvList::new_unique_names();
    proof {
        reveal_strlit("force");
        assert(!has_nul("force"@));
    }
    let ghost before = args@;
    let r = args.insert_data("force", NvData::BoolV(force));
    proof {
        assert(!before.has_name("force"@));
        assert(args@.pairs =~= seq![PairView { name: "force"@, data: DataView::BoolV(force) }]);
    }
    args
}

/// The name that a call left in a buffer: the bytes before the first NUL
/// byte, or `None` where the buffer holds no NUL byte.
pub fn name_in_buffer(buf: &[u8]) -> (r: Option<Vec<u8>>)
    ensures
        match r {
            Some(name) => {
                &&& name@.len() < buf@.len()
                &&& buf@[name@.len() as int] == 0
                &&& name@ == buf@.take(name@.len() as int)
                &&& !name@.contains(0u8)
            },
            None => !buf@.contains(0u8),
        },
{
    let mut name: Vec<u8> = Vec::new();
    let mut i: usize = 0;
    while i < buf.len()
        invariant
            i <= buf.len(),
            name@ == buf@.take(i as int),
            forall|j: int| 0 <= j < i ==> buf@[j] != 0,
        decreases buf.len() - i,
    {
        if buf[i] == 0 {
            return Some(name);
        }
        name.push(buf[i]);
        assert(buf@.take(i + 1) =~= buf@.take(i as int).push(buf@[i as int]));
        i += 1;
    }
    None
}

} // verus!
