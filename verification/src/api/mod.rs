//! Synchronisation of scanned entries with the Vellum API server.
pub mod client;

use vstd::prelude::*;

use crate::api::client::{EntryPayload, EntryPayloadView, EntryResponse};
use crate::text::{chars_eq, chars_of};

verus! {

/// What the interface learns of a session with the server.
pub struct SessionInfo {
    pub user_id: String,
    pub username: String,
}

/// The outcome of saving entries into a project.
pub struct SaveResult {
    pub project_id: String,
    pub project_name: String,
    pub new_count: usize,
    pub skipped_count: usize,
}

/// How a save proceeds once the project's stored entries are known.
pub struct SavePlan {
    /// The full list to upload, when there is anything new.
    pub upload: Option<Vec<EntryPayload>>,
    pub new_count: usize,
    pub skipped_count: usize,
}

/// The identity of an entry: its file and key joined by `::`.
pub open spec fn entry_identity(e: EntryPayloadView) -> Seq<char> {
    e.env_file + seq![':', ':'] + e.key
}

/// The identities of the stored entries.
pub open spec fn stored_identities(existing: Seq<EntryPayloadView>) -> Seq<Seq<char>> {
    existing.map_values(|e: EntryPayloadView| entry_identity(e))
}

/// The entries whose identity is not among the stored ones, in order.
pub open spec fn spec_new_entries(existing: Seq<EntryPayloadView>, entries: Seq<EntryPayloadView>) -> Seq<
    EntryPayloadView,
> {
    entries.filter(|e: EntryPayloadView| !stored_identities(existing).contains(entry_identity(e)))
}

/// The views of stored entries and of payloads.
pub open spec fn responses_view(v: Seq<EntryResponse>) -> Seq<EntryPayloadView> {
    v.map_values(|e: EntryResponse| e@)
}

pub open spec fn payloads_view(v: Seq<EntryPayload>) -> Seq<EntryPayloadView> {
    v.map_values(|e: EntryPayload| e@)
}

/// Saving the same entries again right after an upload finds nothing new:
/// once the server stores the uploaded list (stored entries followed by the
/// new ones), every entry's identity is stored.
pub proof fn lemma_resave_uploads_nothing(existing: Seq<EntryPayloadView>, entries: Seq<EntryPayloadView>)
    ensures
        spec_new_entries(existing + spec_new_entries(existing, entries), entries).len() == 0,
{
    let fresh = spec_new_entries(existing, entries);
    let stored = existing + fresh;
    let pred0 = |e: EntryPayloadView| !stored_identities(existing).contains(entry_identity(e));
    let pred1 = |e: EntryPayloadView| !stored_identities(stored).contains(entry_identity(e));
    let again = entries.filter(pred1);
    if again.len() > 0 {
        entries.lemma_filter_pred(pred1, 0);
        assert(again.contains(again[0]));
        entries.lemma_filter_contains_rev(pred1, again[0]);
        let e = again[0];
        let k = choose|k: int| 0 <= k < entries.len() && entries[k] == e;
        if stored_identities(existing).contains(entry_identity(e)) {
            let j = choose|j: int|
                0 <= j < stored_identities(existing).len() && stored_identities(existing)[j]
                    == entry_identity(e);
            assert(stored_identities(stored)[j] == entry_identity(stored[j]));
            assert(stored[j] == existing[j]);
            assert(stored_identities(stored).contains(entry_identity(e)));
        } else {
            assert(pred0(entries[k]));
            entries.lemma_filter_contains(pred0, k);
            let j = choose|j: int| 0 <= j < fresh.len() && fresh[j] == e;
            assert(stored[existing.len() + j] == e);
            assert(stored_identities(stored)[existing.len() + j] == entry_identity(e));
            assert(stored_identities(stored).contains(entry_identity(e)));
        }
    }
}

fn identity_of(env_file: &String, key: &String) -> (r: Vec<char>)
    ensures
        r@ == env_file@ + seq![':', ':'] + key@,
{
    let mut r = chars_of(env_file.as_str());
    r.push(':');
    r.push(':');
    let mut k = chars_of(key.as_str());
    r.append(&mut k);
    r
}

fn contains_identity(ids: &Vec<Vec<char>>, id: &[char]) -> (b: bool)
    ensures
        b == ids@.map_values(|v: Vec<char>| v@).contains(id@),
{
    let ghost iv = ids@.map_values(|v: Vec<char>| v@);
    let mut i: usize = 0;
    while i < ids.len()
        invariant
            iv == ids@.map_values(|v: Vec<char>| v@),
            i <= ids@.len(),
            forall|k: int| 0 <= k < i ==> #[trigger] iv[k] != id@,
        decreases ids@.len() - i,
    {
        if chars_eq(ids[i].as_slice(), id) {
            assert(iv[i as int] == id@);
            return true;
        }
        i += 1;
    }
    false
}

/// Decides what to upload: the stored entries (as payloads) followed by the
/// entries whose `file::key` identity is not stored yet. Nothing is uploaded
/// when there is nothing new; the others are counted as skipped.
pub fn plan_save(existing: &Vec<EntryResponse>, entries: &Vec<EntryPayload>) -> (plan: SavePlan)
    ensures
        ({
            let fresh = spec_new_entries(responses_view(existing@), payloads_view(entries@));
            &&& plan.new_count == fresh.len()
            &&& plan.skipped_count == entries@.len() - fresh.len()
            &&& fresh.len() == 0 ==> plan.upload is None
            &&& fresh.len() > 0 ==> (plan.upload matches Some(v) && payloads_view(v@)
                == responses_view(existing@) + fresh)
        }),
{
    let ghost ev = responses_view(existing@);
    let ghost pv = payloads_view(entries@);
    let ghost pred = |e: EntryPayloadView| !stored_identities(ev).contains(entry_identity(e));
    let mut ids: Vec<Vec<char>> = Vec::new();
    let mut merged: Vec<EntryPayload> = Vec::new();
    let mut i: usize = 0;
    while i < existing.len()
        invariant
            ev == responses_view(existing@),
            i <= existing@.len(),
            ids@.map_values(|v: Vec<char>| v@) == stored_identities(ev.take(i as int)),
            payloads_view(merged@) == ev.take(i as int),
        decreases existing@.len() - i,
    {
        let e = &existing[i];
        let id = identity_of(&e.env_file, &e.key);
        let ghost old_ids = ids@.map_values(|v: Vec<char>| v@);
        assert(ev[i as int] == e@);
        assert(ev.take(i + 1) =~= ev.take(i as int).push(e@));
        assert(stored_identities(ev.take(i + 1)) =~= stored_identities(ev.take(i as int)).push(
            entry_identity(e@),
        ));
        ids.push(id);
        assert(ids@.map_values(|v: Vec<char>| v@) =~= old_ids.push(entry_identity(e@)));
        merged.push(
            EntryPayload {
                env_file: e.env_file.clone(),
                key: e.key.clone(),
                encrypted_value: e.encrypted_value.clone(),
                is_sensitive: e.is_sensitive,
            },
        );
        i += 1;
        assert(ids@.map_values(|v: Vec<char>| v@) =~= stored_identities(ev.take(i as int)));
        assert(payloads_view(merged@) =~= ev.take(i as int));
    }
    assert(ev.take(i as int) =~= ev);
    let mut fresh: Vec<EntryPayload> = Vec::new();
    let mut j: usize = 0;
    while j < entries.len()
        invariant
            ev == responses_view(existing@),
            pv == payloads_view(entries@),
            pred == (|e: EntryPayloadView| !stored_identities(ev).contains(entry_identity(e))),
            ids@.map_values(|v: Vec<char>| v@) == stored_identities(ev),
            j <= entries@.len(),
            payloads_view(fresh@) == pv.take(j as int).filter(pred),
            fresh@.len() <= j,
        decreases entries@.len() - j,
    {
        let e = &entries[j];
        let id = identity_of(&e.env_file, &e.key);
        assert(pv.take(j + 1).drop_last() =~= pv.take(j as int));
        assert(pv.take(j + 1).last() == e@);
        let stored = contains_identity(&ids, id.as_slice());
        proof {
            reveal_with_fuel(Seq::<_>::filter, 1);
        }
        if !stored {
            fresh.push(e.duplicate());
            assert(payloads_view(fresh@) =~= pv.take(j as int).filter(pred).push(e@));
        }
        j += 1;
    }
    assert(pv.take(j as int) =~= pv);
    let new_count = fresh.len();
    let skipped_count = entries.len() - new_count;
    if new_count > 0 {
        let ghost mv = payloads_view(merged@);
        let ghost fv = payloads_view(fresh@);
        merged.append(&mut fresh);
        assert(payloads_view(merged@) =~= mv + fv);
        SavePlan { upload: Some(merged), new_count, skipped_count }
    } else {
        SavePlan { upload: None, new_count, skipped_count }
    }
}

} // verus!
