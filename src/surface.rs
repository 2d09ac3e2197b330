//! The public-surface extractor: keeps the fully public declarations of a module.
use vstd::prelude::*;
use crate::model::{item_surface, surface, Declaration, RawItem};

verus! {

/// The declarations a sequence of references points to.
pub open spec fn targets(s: Seq<&Declaration>) -> Seq<Declaration> {
    s.map_values(|d: &Declaration| *d)
}

/// The fully public declarations of `items`, in their order of appearance.
pub fn extract_types<'a>(items: &'a Vec<RawItem>) -> (r: Vec<&'a Declaration>)
    ensures
        targets(r@) == surface(items@),
{
    let mut v: Vec<&'a Declaration> = Vec::new();
    let mut i: usize = 0;
    while i < items.len()
        invariant
            0 <= i <= items@.len(),
            targets(v@) == surface(items@.take(i as int)),
        decreases items@.len() - i,
    {
        proof {
            assert(items@.take(i as int + 1).drop_last() =~= items@.take(i as int));
        }
        match &items[i] {
            RawItem::Declared { public, decl } => {
                if *public {
                    v.push(decl);
                }
            },
            _ => {},
        }
        proof {
            assert(item_surface(items@[i as int]) == item_surface(items@.take(i as int + 1).last()));
            assert(targets(v@) =~= surface(items@.take(i as int)) + item_surface(items@[i as int]));
        }
        i += 1;
    }
    assert(items@.take(items@.len() as int) =~= items@);
    v
}

} // verus!
