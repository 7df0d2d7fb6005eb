//! The gallery of a document: the addresses of the images that are not
//! featured, and the address of the first one that is.

use crate::records::{gallery_views, GalleryItem};
use crate::text::{lemma_texts_push, texts};
use vstd::prelude::*;

verus! {

/// The addresses of the items that are not featured, in the items' order.
pub open spec fn plain_urls(items: Seq<(Seq<char>, bool)>) -> Seq<Seq<char>>
    decreases items.len(),
{
    if items.len() == 0 {
        Seq::empty()
    } else if items.last().1 {
        plain_urls(items.drop_last())
    } else {
        plain_urls(items.drop_last()).push(items.last().0)
    }
}

/// The address of the first featured item, if there is one.
pub open spec fn first_featured(items: Seq<(Seq<char>, bool)>) -> Option<Seq<char>>
    decreases items.len(),
{
    if items.len() == 0 {
        None
    } else if items[0].1 {
        Some(items[0].0)
    } else {
        first_featured(items.drop_first())
    }
}

/// The addresses of the images that are not featured.
pub fn gallery_urls(items: &Vec<GalleryItem>) -> (r: Vec<String>)
    ensures
        texts(r@) == plain_urls(gallery_views(items@)),
{
    let ghost all = gallery_views(items@);
    let mut r: Vec<String> = Vec::new();
    let mut i: usize = 0;
    proof {
        assert(texts(r@) =~= Seq::<Seq<char>>::empty());
        assert(all.take(0) =~= Seq::<(Seq<char>, bool)>::empty());
    }
    while i < items.len()
        invariant
            i <= items.len(),
            all == gallery_views(items@),
            texts(r@) == plain_urls(all.take(i as int)),
        decreases items.len() - i,
    {
        proof {
            assert(all.take(i as int + 1).drop_last() =~= all.take(i as int));
            assert(all.take(i as int + 1).last() == all[i as int]);
        }
        if !items[i].featured {
            proof {
                lemma_texts_push(r@, items@[i as int].url);
            }
            r.push(items[i].url.clone());
        }
        i += 1;
    }
    proof {
        assert(all.take(items.len() as int) =~= all);
    }
    r
}

/// The address of the first featured image.
pub fn featured_url(items: &Vec<GalleryItem>) -> (r: Option<String>)
    ensures
        match r {
            Some(url) => first_featured(gallery_views(items@)) == Some(url@),
            None => first_featured(gallery_views(items@)) is None,
        },
{
    let ghost all = gallery_views(items@);
    let mut i: usize = 0;
    proof {
        assert(all.skip(0) =~= all);
    }
    while i < items.len()
        invariant
            i <= items.len(),
            all == gallery_views(items@),
            first_featured(all) == first_featured(all.skip(i as int)),
        decreases items.len() - i,
    {
        proof {
            assert(all.skip(i as int).drop_first() =~= all.skip(i as int + 1));
            assert(all.skip(i as int)[0] == all[i as int]);
        }
        if items[i].featured {
            return Some(items[i].url.clone());
        }
        i += 1;
    }
    None
}

/// Without a featured item there is no featured address, and the one there
/// is belongs to the first featured item.
pub proof fn lemma_first_featured(items: Seq<(Seq<char>, bool)>)
    ensures
        match first_featured(items) {
            Some(url) => exists|i: int|
                0 <= i < items.len() && (#[trigger] items[i]).1 && items[i].0 == url && forall|
                    j: int,
                | 0 <= j < i ==> !(#[trigger] items[j]).1,
            None => forall|i: int| 0 <= i < items.len() ==> !(#[trigger] items[i]).1,
        },
    decreases items.len(),
{
    if items.len() > 0 {
        if items[0].1 {
            assert(items[0].1 && items[0].0 == first_featured(items)->0);
        } else {
            let rest = items.drop_first();
            lemma_first_featured(rest);
            match first_featured(rest) {
                Some(url) => {
                    let i = choose|i: int|
                        0 <= i < rest.len() && (#[trigger] rest[i]).1 && rest[i].0 == url
                            && forall|j: int| 0 <= j < i ==> !(#[trigger] rest[j]).1;
                    assert(items[i + 1] == rest[i]);
                    assert forall|j: int| 0 <= j < i + 1 implies !(#[trigger] items[j]).1 by {
                        if j > 0 {
                            assert(items[j] == rest[j - 1]);
                        }
                    }
                },
                None => {
                    assert forall|i: int| 0 <= i < items.len() implies !(#[trigger] items[i]).1 by {
                        if i > 0 {
                            assert(items[i] == rest[i - 1]);
                        }
                    }
                },
            }
        }
    }
}

/// The plain addresses are those of the items that are not featured, and no
/// others: a featured item adds none.
pub proof fn lemma_plain_urls(items: Seq<(Seq<char>, bool)>, url: Seq<char>)
    ensures
        plain_urls(items).contains(url) <==> exists|i: int|
            0 <= i < items.len() && !(#[trigger] items[i]).1 && items[i].0 == url,
    decreases items.len(),
{
    if items.len() > 0 {
        let front = items.drop_last();
        let last = items.len() - 1;
        lemma_plain_urls(front, url);
        let now = plain_urls(items);
        let before = plain_urls(front);
        if now.contains(url) {
            let k = choose|k: int| 0 <= k < now.len() && now[k] == url;
            if !items.last().1 && k == before.len() {
                assert(!items[last].1 && items[last].0 == url);
            } else {
                assert(before[k] == url);
                let i = choose|i: int|
                    0 <= i < front.len() && !(#[trigger] front[i]).1 && front[i].0 == url;
                assert(items[i] == front[i]);
            }
        }
        if exists|i: int| 0 <= i < items.len() && !(#[trigger] items[i]).1 && items[i].0 == url {
            let i = choose|i: int|
                0 <= i < items.len() && !(#[trigger] items[i]).1 && items[i].0 == url;
            if i < last {
                assert(front[i] == items[i]);
                assert(before.contains(url));
                let k = choose|k: int| 0 <= k < before.len() && before[k] == url;
                assert(now[k] == url);
            } else {
                assert(now[before.len() as int] == url);
            }
        }
    }
}

} // verus!
