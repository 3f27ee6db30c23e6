//! The first item of a list that passes a test.
use vstd::prelude::*;

verus! {

/// Where the first item of `items` stands that passes `test`.
pub open spec fn first_index<A>(items: Seq<A>, test: spec_fn(A) -> bool) -> Option<int>
    decreases items.len(),
{
    if items.len() == 0 {
        None
    } else {
        match first_index(items.drop_last(), test) {
            Some(i) => Some(i),
            None => if test(items.last()) {
                Some(items.len() - 1)
            } else {
                None
            },
        }
    }
}

/// The first item of `items` that passes `test`.
pub open spec fn first_item<A>(items: Seq<A>, test: spec_fn(A) -> bool) -> Option<A> {
    match first_index(items, test) {
        Some(i) => Some(items[i]),
        None => None,
    }
}

/// Where no item passes, there is no first one.
pub proof fn lemma_none_passes<A>(items: Seq<A>, test: spec_fn(A) -> bool)
    requires
        forall|i: int| 0 <= i < items.len() ==> !test(#[trigger] items[i]),
    ensures
        first_index(items, test) is None,
    decreases items.len(),
{
    if items.len() > 0 {
        let front = items.drop_last();
        assert forall|i: int| 0 <= i < front.len() implies !test(#[trigger] front[i]) by {
            assert(!test(items[i]));
        }
        lemma_none_passes(front, test);
        assert(!test(items[items.len() - 1]));
    }
}

/// An item that passes behind items that do not is the first one.
pub proof fn lemma_first_passes<A>(items: Seq<A>, test: spec_fn(A) -> bool, at: int)
    requires
        0 <= at < items.len(),
        test(items[at]),
        forall|i: int| 0 <= i < at ==> !test(#[trigger] items[i]),
    ensures
        first_index(items, test) == Some(at),
    decreases items.len(),
{
    let front = items.drop_last();
    if at == items.len() - 1 {
        assert forall|i: int| 0 <= i < front.len() implies !test(#[trigger] front[i]) by {
            assert(!test(items[i]));
        }
        lemma_none_passes(front, test);
    } else {
        assert forall|i: int| 0 <= i < at implies !test(#[trigger] front[i]) by {
            assert(!test(items[i]));
        }
        lemma_first_passes(front, test, at);
    }
}

/// The first item that passes is one that passes, and none before it does.
pub proof fn lemma_first_index<A>(items: Seq<A>, test: spec_fn(A) -> bool)
    ensures
        first_index(items, test) matches Some(at) ==> {
            &&& 0 <= at < items.len()
            &&& test(items[at])
            &&& forall|i: int| 0 <= i < at ==> !test(#[trigger] items[i])
        },
        first_index(items, test) is None ==> forall|i: int|
            0 <= i < items.len() ==> !test(#[trigger] items[i]),
    decreases items.len(),
{
    if items.len() > 0 {
        let front = items.drop_last();
        lemma_first_index(front, test);
        match first_index(items, test) {
            Some(at) => {
                assert forall|i: int| 0 <= i < at implies !test(#[trigger] items[i]) by {
                    assert(!test(front[i]));
                }
            },
            None => {
                assert forall|i: int| 0 <= i < items.len() implies !test(#[trigger] items[i]) by {
                    if i < front.len() {
                        assert(!test(front[i]));
                    }
                }
            },
        }
    }
}

/// The first item that passes stands where its image is the first to pass.
pub proof fn lemma_mapped_first_index<A, B>(
    items: Seq<A>,
    test: spec_fn(A) -> bool,
    image: spec_fn(A) -> B,
    image_test: spec_fn(B) -> bool,
)
    requires
        forall|item: A| #[trigger] test(item) == image_test(image(item)),
    ensures
        first_index(items.map_values(image), image_test) == first_index(items, test),
    decreases items.len(),
{
    if items.len() > 0 {
        let images = items.map_values(image);
        assert(images.drop_last() =~= items.drop_last().map_values(image));
        lemma_mapped_first_index(items.drop_last(), test, image, image_test);
        assert(test(items.last()) == image_test(images.last()));
    }
}

/// Looks for the first item that passes; `check` decides `test`.
pub(crate) fn find_first<A, F: Fn(&A) -> bool>(
    items: &Vec<A>,
    check: F,
    Ghost(test): Ghost<spec_fn(A) -> bool>,
) -> (found: Option<usize>)
    requires
        forall|item: &A| #[trigger] call_requires(check, (item,)),
        forall|item: &A, passes: bool| #[trigger]
            call_ensures(check, (item,), passes) ==> passes == test(*item),
    ensures
        match found {
            Some(i) => i < items@.len() && first_index(items@, test) == Some(i as int),
            None => first_index(items@, test) is None,
        },
{
    let mut i: usize = 0;
    while i < items.len()
        invariant
            i <= items@.len(),
            forall|item: &A| #[trigger] call_requires(check, (item,)),
            forall|item: &A, passes: bool| #[trigger]
                call_ensures(check, (item,), passes) ==> passes == test(*item),
            forall|j: int| 0 <= j < i ==> !test(#[trigger] items@[j]),
        decreases items@.len() - i,
    {
        if check(&items[i]) {
            proof {
                lemma_first_passes(items@, test, i as int);
            }
            return Some(i);
        }
        i += 1;
    }
    proof {
        lemma_none_passes(items@, test);
    }
    None
}

} // verus!
