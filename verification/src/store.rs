//! The store's decoding contract: a set of record texts either decodes in
//! full, in order, or the whole operation fails — one bad record yields no
//! partial list.

use vstd::prelude::*;
use crate::codec::{decode, spec_decode};
use crate::task::Task;

verus! {

/// Decodes every record text, keeping order. Returns `None` as soon as any
/// single record fails to decode: no partial result is ever produced.
pub fn decode_records(files: &Vec<String>) -> (r: Option<Vec<Task>>)
    ensures
        match r {
            Some(ts) => ts@.len() == files@.len() && forall|i: int|
                0 <= i < files@.len() ==> spec_decode(#[trigger] files@[i]@) == Some(ts@[i]@),
            None => exists|i: int|
                0 <= i < files@.len() && spec_decode(#[trigger] files@[i]@) is None,
        },
{
    let mut ts: Vec<Task> = Vec::new();
    let n = files.len();
    let mut k: usize = 0;
    while k < n
        invariant
            k <= n,
            n == files@.len(),
            ts@.len() == k,
            forall|i: int| 0 <= i < k ==> spec_decode(#[trigger] files@[i]@) == Some(ts@[i]@),
        decreases n - k,
    {
        match decode(files[k].as_str()) {
            Some(t) => {
                ts.push(t);
            },
            None => {
                return None;
            },
        }
        k += 1;
    }
    Some(ts)
}

} // verus!
