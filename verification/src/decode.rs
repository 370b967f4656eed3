//! The generic decode framework: a protocol-agnostic mapping from a raw
//! list document into caller-defined item and list types, and the
//! pagination cursor it carries.

use vstd::prelude::*;

use crate::errors::spec_tag_inner;
use crate::errors::tag_inner;
use crate::strutil::extract_between;
use crate::strutil::extract_values;
use vstd::string::StrSliceExecFns;

verus! {

/// Why a decode failed: a malformed document, or a value the caller's own
/// target rejected. Callers tell transport failure from domain failure by
/// the variant.
#[derive(Debug)]
pub enum DecodeError<E> {
    /// The document is not shaped as expected.
    Format(String),
    /// The target rejected a decoded value, with the caller's own error.
    Target(E),
}

/// A caller-defined single item under decoding: the framework hands it the
/// item's key.
pub trait ItemTarget<E>: Sized {
    /// What taking `key` did to the item, and with which outcome; the
    /// implementing type gives this its meaning.
    open spec fn key_taken(&self, pre: Self, key: Seq<char>, r: Result<(), E>) -> bool {
        true
    }

    /// Takes the item's key; the caller's type may reject it.
    fn set_key(&mut self, key: &str) -> (r: Result<(), E>)
        ensures
            final(self).key_taken(*old(self), key@, r),
    ;
}

/// A caller-defined list container under decoding: the framework hands it
/// the container's name and, once, the complete item sequence.
pub trait ListTarget<I, E>: Sized {
    /// What taking the container's name did to the target, and with which
    /// outcome; the implementing type gives this its meaning.
    open spec fn name_taken(&self, pre: Self, name: Seq<char>, r: Result<(), E>) -> bool {
        true
    }

    /// What taking the complete item sequence did to the target, and with
    /// which outcome; the implementing type gives this its meaning.
    open spec fn list_taken(&self, pre: Self, items: Seq<I>, r: Result<(), E>) -> bool {
        true
    }

    /// Takes the container's name; the caller's type may reject it.
    fn set_name(&mut self, name: &str) -> (r: Result<(), E>)
        ensures
            final(self).name_taken(*old(self), name@, r),
    ;

    /// Takes the complete decoded items, in document order.
    fn set_list(&mut self, items: Vec<I>) -> (r: Result<(), E>)
        ensures
            final(self).list_taken(*old(self), items@, r),
    ;
}

/// The key of a single item document, where the document carries one.
pub open spec fn spec_item_key(x: Seq<char>) -> Option<Seq<char>> {
    spec_tag_inner(x, "<Key>"@, "</Key>"@)
}

/// The parts of a list document: container name and item fragments.
pub open spec fn spec_list_parts(x: Seq<char>) -> Option<(Seq<char>, Seq<Seq<char>>)> {
    match (spec_tag_inner(x, "<Name>"@, "</Name>"@), extract_between(x, "<Item>"@, "</Item>"@)) {
        (Some(n), Some(frags)) => Some((n, frags)),
        _ => None,
    }
}

/// A list document the framework accepts: its parts exist and every item
/// fragment carries a key.
pub open spec fn spec_list_wf(x: Seq<char>) -> bool {
    &&& spec_list_parts(x) is Some
    &&& (forall|k: int|
        0 <= k < spec_list_parts(x)->Some_0.1.len() ==> spec_item_key(
            #[trigger] spec_list_parts(x)->Some_0.1[k],
        ) is Some)
}

/// The item was decoded from `key`: a fresh item out of `item_init` took
/// the key and accepted it.
pub open spec fn spec_item_decoded<I: ItemTarget<E>, E, F: Fn() -> I>(
    item_init: F,
    item: I,
    key: Seq<char>,
) -> bool {
    exists|fresh: I|
        call_ensures(item_init, (), fresh) && #[trigger] item.key_taken(fresh, key, Ok(()))
}

/// Every item of the run was decoded from the matching fragment's key.
pub open spec fn spec_items_decoded<I: ItemTarget<E>, E, F: Fn() -> I>(
    item_init: F,
    frags: Seq<Seq<char>>,
    items: Seq<I>,
) -> bool {
    &&& items.len() == frags.len()
    &&& forall|k: int|
        0 <= k < items.len() ==> spec_item_decoded(
            item_init,
            #[trigger] items[k],
            spec_item_key(frags[k])->Some_0,
        )
}

/// Decodes a single item document: locates the item's key and hands it to
/// the target. A target rejection is passed on, not swallowed.
pub fn decode_item<E, T: ItemTarget<E>>(xml: &str, target: &mut T) -> (r: Result<
    (),
    DecodeError<E>,
>)
    ensures
        r matches Err(DecodeError::Format(_)) <==> spec_item_key(xml@) is None,
        spec_item_key(xml@) is None ==> *final(target) == *old(target),
        r matches Ok(_) ==> final(target).key_taken(
            *old(target),
            spec_item_key(xml@)->Some_0,
            Ok(()),
        ),
        r matches Err(DecodeError::Target(e)) ==> final(target).key_taken(
            *old(target),
            spec_item_key(xml@)->Some_0,
            Err(e),
        ),
{
    match tag_inner(xml, "<Key>", "</Key>") {
        Some(key) => {
            let taken = target.set_key(key.as_str());
            let ghost tg = taken;
            match taken {
                Ok(_) => {
                    proof {
                        assert(tg is Ok);
                        assert(tg->Ok_0 == ());
                        assert(tg == Ok::<(), E>(()));
                    }
                    Ok(())
                },
                Err(e) => {
                    let ghost ev = e;
                    proof {
                        assert(tg == Err::<(), E>(ev));
                    }
                    Err(DecodeError::Target(e))
                },
            }
        },
        None => Err(DecodeError::Format("item document carries no key element".to_owned())),
    }
}

/// Decodes a list document: hands the container's name to the list target,
/// decodes every item fragment into a fresh item from `item_init`, and
/// hands the complete sequence to the list target once. A target rejection
/// is passed on: the error of a `Target` outcome is the very value one of
/// the target calls returned.
pub fn decode_list<I, E, L, F>(xml: &str, list: &mut L, item_init: F) -> (r: Result<
    (),
    DecodeError<E>,
>) where L: ListTarget<I, E>, I: ItemTarget<E>, F: Fn() -> I
    requires
        call_requires(item_init, ()),
    ensures
        r matches Err(DecodeError::Format(_)) ==> !spec_list_wf(xml@),
        r matches Ok(_) ==> spec_list_wf(xml@) && (exists|mid: L, items: Seq<I>|
            mid.name_taken(*old(list), spec_list_parts(xml@)->Some_0.0, Ok(()))
                && spec_items_decoded(item_init, spec_list_parts(xml@)->Some_0.1, items)
                && #[trigger] final(list).list_taken(mid, items, Ok(()))),
        r matches Err(DecodeError::Target(e)) ==> ({
            ||| final(list).name_taken(*old(list), spec_list_parts(xml@)->Some_0.0, Err(e))
            ||| exists|k: int, fresh: I, failed: I|
                0 <= k < spec_list_parts(xml@)->Some_0.1.len() && call_ensures(item_init, (), fresh)
                    && #[trigger] failed.key_taken(
                    fresh,
                    spec_item_key(spec_list_parts(xml@)->Some_0.1[k])->Some_0,
                    Err(e),
                )
            ||| exists|mid: L, items: Seq<I>|
                mid.name_taken(*old(list), spec_list_parts(xml@)->Some_0.0, Ok(()))
                    && spec_items_decoded(item_init, spec_list_parts(xml@)->Some_0.1, items)
                    && #[trigger] final(list).list_taken(mid, items, Err(e))
        }),
{
    proof {
        reveal_strlit("<Item>");
        reveal_strlit("</Item>");
    }
    let name = match tag_inner(xml, "<Name>", "</Name>") {
        Some(n) => n,
        None => {
            return Err(
                DecodeError::Format("list document carries no name element".to_owned()),
            );
        },
    };
    let frags = match extract_values(xml, "<Item>", "</Item>") {
        Some(f) => f,
        None => {
            return Err(
                DecodeError::Format("list document has unpaired item markers".to_owned()),
            );
        },
    };
    let ghost nv = spec_list_parts(xml@)->Some_0.0;
    let ghost fv = spec_list_parts(xml@)->Some_0.1;
    assert(nv == name@);
    let named = list.set_name(name.as_str());
    let ghost ng = named;
    match named {
        Ok(_) => {
            proof {
                assert(ng is Ok);
                assert(ng->Ok_0 == ());
                assert(ng == Ok::<(), E>(()));
            }
        },
        Err(e) => {
            let ghost ev = e;
            proof {
                assert(ng == Err::<(), E>(ev));
                assert(list.name_taken(*old(list), nv, Err(ev)));
            }
            return Err(DecodeError::Target(e));
        },
    }
    let ghost mid = *list;
    assert(mid.name_taken(*old(list), nv, Ok(())));
    let mut items: Vec<I> = Vec::new();
    let mut k: usize = 0;
    while k < frags.len()
        invariant
            fv == frags@.map_values(|s: String| s@),
            spec_list_parts(xml@) is Some,
            fv == spec_list_parts(xml@)->Some_0.1,
            call_requires(item_init, ()),
            *list == mid,
            0 <= k <= frags@.len(),
            items@.len() == k,
            forall|j: int| 0 <= j < k ==> spec_item_key(#[trigger] fv[j]) is Some,
            forall|j: int|
                0 <= j < k ==> spec_item_decoded(
                    item_init,
                    #[trigger] items@[j],
                    spec_item_key(fv[j])->Some_0,
                ),
        decreases frags@.len() - k,
    {
        let mut item = item_init();
        let ghost fresh = item;
        assert(frags[k as int]@ == fv[k as int]);
        match decode_item(frags[k].as_str(), &mut item) {
            Ok(_) => {
                proof {
                    assert(item.key_taken(fresh, spec_item_key(fv[k as int])->Some_0, Ok(())));
                    assert(spec_item_decoded(
                        item_init,
                        item,
                        spec_item_key(fv[k as int])->Some_0,
                    ));
                }
                items.push(item);
            },
            Err(DecodeError::Format(m)) => {
                assert(spec_item_key(fv[k as int]) is None);
                return Err(DecodeError::Format(m));
            },
            Err(DecodeError::Target(e)) => {
                let ghost ev = e;
                let ghost failed = item;
                proof {
                    assert(failed.key_taken(fresh, spec_item_key(fv[k as int])->Some_0, Err(
                        ev,
                    )));
                }
                return Err(DecodeError::Target(e));
            },
        }
        k += 1;
    }
    assert(spec_list_wf(xml@));
    let ghost items_v = items@;
    assert(spec_items_decoded(item_init, fv, items_v));
    let listed = list.set_list(items);
    let ghost lg = listed;
    match listed {
        Ok(_) => {
            proof {
                assert(lg is Ok);
                assert(lg->Ok_0 == ());
                assert(lg == Ok::<(), E>(()));
                assert(list.list_taken(mid, items_v, Ok(())));
            }
            Ok(())
        },
        Err(e) => {
            let ghost ev = e;
            proof {
                assert(lg == Err::<(), E>(ev));
                assert(list.list_taken(mid, items_v, Err(ev)));
            }
            Err(DecodeError::Target(e))
        },
    }
}

/// The pagination cursor of a list document: the first continuation-token
/// element, where it exists and is non-empty. An empty or missing token
/// means the listing is complete.
pub fn next_token_of(xml: &str) -> (r: Option<String>)
    ensures
        match r {
            Some(t) => spec_tag_inner(xml@, "<NextContinuationToken>"@, "</NextContinuationToken>"@)
                == Some(t@) && t@.len() > 0,
            None => (match spec_tag_inner(
                xml@,
                "<NextContinuationToken>"@,
                "</NextContinuationToken>"@,
            ) {
                Some(t) => t.len() == 0,
                None => true,
            }),
        },
{
    match tag_inner(xml, "<NextContinuationToken>", "</NextContinuationToken>") {
        Some(t) => {
            if t.as_str().unicode_len() == 0 {
                None
            } else {
                Some(t)
            }
        },
        None => None,
    }
}

} // verus!
