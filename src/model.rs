use vstd::prelude::*;

verus! {

/// Number of components of every embedding vector exchanged by the pipeline.
pub const BERTV2_EMBEDDING_DIMENSION: usize = 384;

/// Token budget handed to the sentence encoder for one title.
pub const MAX_TITLE_TOKENS: usize = 512;

/// A knowledge-base record: an identifier and, possibly, a title.
#[derive(Clone, Debug, PartialEq)]
pub struct Entry {
    pub id: String,
    pub title: Option<String>,
}

/// One impression: it names the entry that was shown.
#[derive(Clone, Debug, PartialEq)]
pub struct ImpressionRecord {
    pub impression_id: String,
    pub entry_id: String,
}

/// The entry ids that `records` name, in order, duplicates kept.
pub open spec fn record_ids(records: Seq<ImpressionRecord>) -> Seq<String> {
    records.map_values(|r: ImpressionRecord| r.entry_id)
}

/// The entry ids of `records`, in order, duplicates kept.
pub fn entry_ids_of(records: &Vec<ImpressionRecord>) -> (ids: Vec<String>)
    ensures
        ids@ == record_ids(records@),
{
    let mut ids: Vec<String> = Vec::new();
    let mut k: usize = 0;
    while k < records.len()
        invariant
            k <= records@.len(),
            ids@.len() == k,
            forall|i: int| 0 <= i < k ==> ids@[i] == records@[i].entry_id,
        decreases records@.len() - k,
    {
        ids.push(records[k].entry_id.clone());
        k = k + 1;
    }
    assert(ids@ =~= record_ids(records@));
    ids
}

} // verus!
