//! Small helpers on strings and lists of strings, stated over their views.

use vstd::prelude::*;
use vstd::string::StringExecFns;

verus! {

/// The texts held by a list of strings, in order.
pub open spec fn texts(list: Seq<String>) -> Seq<Seq<char>> {
    list.map_values(|s: String| s@)
}

/// Whether `a` and `b` hold the same text.
pub fn same_text(a: &str, b: &str) -> (same: bool)
    ensures
        same == (a@ == b@),
{
    let left = String::from_str(a);
    let right = String::from_str(b);
    left == right
}

/// A copy of `list` that holds the same texts in the same order.
pub fn clone_texts(list: &Vec<String>) -> (copy: Vec<String>)
    ensures
        texts(copy@) == texts(list@),
{
    let mut copy: Vec<String> = Vec::new();
    let mut i: usize = 0;
    while i < list.len()
        invariant
            i <= list.len(),
            copy.len() == i,
            forall|k: int| 0 <= k < i ==> copy[k]@ == list[k]@,
        decreases list.len() - i,
    {
        copy.push(list[i].clone());
        i += 1;
    }
    assert(texts(copy@) =~= texts(list@));
    copy
}

/// Whether `list` holds the text of `wanted`.
pub fn has_text(list: &Vec<String>, wanted: &str) -> (found: bool)
    ensures
        found == texts(list@).contains(wanted@),
{
    let mut i: usize = 0;
    while i < list.len()
        invariant
            i <= list.len(),
            forall|k: int| 0 <= k < i ==> list[k]@ != wanted@,
        decreases list.len() - i,
    {
        if same_text(list[i].as_str(), wanted) {
            assert(texts(list@)[i as int] == wanted@);
            return true;
        }
        i += 1;
    }
    assert(!texts(list@).contains(wanted@)) by {
        if texts(list@).contains(wanted@) {
            let k = choose|k: int| 0 <= k < texts(list@).len() && texts(list@)[k] == wanted@;
            assert(list[k]@ == wanted@);
        }
    }
    false
}

/// A copy of an optional string with the same text.
pub fn clone_optional_text(text: &Option<String>) -> (copy: Option<String>)
    ensures
        optional_text(copy) == optional_text(*text),
{
    match text {
        Some(s) => Some(s.clone()),
        None => None,
    }
}

/// The text of an optional string.
pub open spec fn optional_text(text: Option<String>) -> Option<Seq<char>> {
    match text {
        Some(s) => Some(s@),
        None => None,
    }
}

/// `list` without the strings that hold the text of `unwanted`; the others
/// keep their order.
pub fn without_text(list: &Vec<String>, unwanted: &str) -> (kept: Vec<String>)
    ensures
        texts(kept@) == texts(list@).filter(|t: Seq<char>| t != unwanted@),
{
    let mut kept: Vec<String> = Vec::new();
    let mut i: usize = 0;
    let ghost pred = |t: Seq<char>| t != unwanted@;
    proof {
        reveal(Seq::filter);
        assert(texts(list@).take(0) =~= Seq::empty());
    }
    while i < list.len()
        invariant
            i <= list.len(),
            pred == (|t: Seq<char>| t != unwanted@),
            texts(kept@) == texts(list@).take(i as int).filter(pred),
        decreases list.len() - i,
    {
        proof {
            reveal(Seq::filter);
            let next = texts(list@).take(i + 1);
            assert(next.drop_last() =~= texts(list@).take(i as int));
            assert(next.last() == list[i as int]@);
        }
        if !same_text(list[i].as_str(), unwanted) {
            kept.push(list[i].clone());
            assert(texts(kept@) =~= texts(list@).take(i as int).filter(pred).push(list[i as int]@));
        }
        i += 1;
    }
    assert(texts(list@).take(i as int) =~= texts(list@));
    kept
}

} // verus!
