use vstd::prelude::*;

verus! {

/// What to do with a freshly fetched game master, given its entity tag.
#[derive(Debug)]
pub enum EtagDecision {
    /// The game master is the one already loaded: keep it.
    Skip,
    /// Load it; afterwards store `new_etag` as the last tag, if there is one.
    Load { new_etag: Option<Vec<u8>> },
}

/// Whether two byte strings are equal.
pub fn bytes_eq(a: &[u8], b: &[u8]) -> (eq: bool)
    ensures
        eq == (a@ == b@),
{
    if a.len() != b.len() {
        return false;
    }
    let mut i: usize = 0;
    while i < a.len()
        invariant
            a@.len() == b@.len(),
            i <= a@.len(),
            forall|j: int| 0 <= j < i ==> a@[j] == b@[j],
        decreases a@.len() - i,
    {
        if a[i] != b[i] {
            return false;
        }
        i = i + 1;
    }
    assert(a@ =~= b@);
    true
}

/// Decides on a fetched game master from the entity tag of the last one
/// loaded and the tag header of the response: skip it when the header is
/// there and equals the last tag; otherwise load it, and keep the header,
/// when there is one, as the next last tag.
pub fn check_etag(last: &[u8], header: Option<&[u8]>) -> (decision: EtagDecision)
    ensures
        match header {
            Some(h) => if h@ == last@ {
                decision is Skip
            } else {
                decision matches EtagDecision::Load { new_etag: Some(t) } && t@ == h@
            },
            None => decision matches EtagDecision::Load { new_etag: None },
        },
{
    match header {
        Some(h) => {
            if bytes_eq(last, h) {
                EtagDecision::Skip
            } else {
                let mut copy: Vec<u8> = Vec::new();
                let mut i: usize = 0;
                while i < h.len()
                    invariant
                        i <= h@.len(),
                        copy@ == h@.take(i as int),
                    decreases h@.len() - i,
                {
                    copy.push(h[i]);
                    i = i + 1;
                    assert(copy@ =~= h@.take(i as int));
                }
                assert(h@.take(h@.len() as int) == h@);
                EtagDecision::Load { new_etag: Some(copy) }
            }
        },
        None => EtagDecision::Load { new_etag: None },
    }
}

} // verus!
