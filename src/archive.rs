//! What an archive contributes to the registry: the paths of its files.
use vstd::prelude::*;

verus! {

/// A listed entry names a directory when it ends with a separator.
pub open spec fn is_dir_entry(p: Seq<char>) -> bool {
    p.len() > 0 && p.last() == '/'
}

pub open spec fn is_file_entry() -> spec_fn(Seq<char>) -> bool {
    |p: Seq<char>| !is_dir_entry(p)
}

/// The file paths of an archive listing, in listed order, leaving out the
/// directory entries.
pub fn file_entries(listing: &Vec<String>) -> (r: Vec<String>)
    ensures
        r.deep_view() == listing.deep_view().filter(is_file_entry()),
{
    let ghost lv = listing.deep_view();
    let ghost pred = is_file_entry();
    let mut r: Vec<String> = Vec::new();
    let mut i: usize = 0;
    assert(lv.subrange(0, 0).filter(pred) =~= Seq::<Seq<char>>::empty()) by {
        reveal(Seq::filter);
    }
    while i < listing.len()
        invariant
            lv == listing.deep_view(),
            pred == is_file_entry(),
            i <= listing.len(),
            r.deep_view() == lv.subrange(0, i as int).filter(pred),
        decreases listing.len() - i,
    {
        let ghost before = r.deep_view();
        assert(lv.subrange(0, i + 1).drop_last() =~= lv.subrange(0, i as int));
        assert(lv.subrange(0, i + 1).filter(pred) == if pred(lv[i as int]) {
            lv.subrange(0, i as int).filter(pred).push(lv[i as int])
        } else {
            lv.subrange(0, i as int).filter(pred)
        }) by {
            reveal(Seq::filter);
        }
        let p = listing[i].as_str();
        let n = p.unicode_len();
        let dir = n > 0 && p.get_char(n - 1) == '/';
        if !dir {
            r.push(listing[i].clone());
            assert(r.deep_view() =~= before.push(lv[i as int]));
        }
        i = i + 1;
    }
    assert(lv.subrange(0, i as int) =~= lv);
    r
}

} // verus!
