//! Items handed to the caller: flags and positional words.

use crate::oschars::{is_utf8, is_valid_text};
use crate::{ArgError, ArgErrorSpec};
use vstd::prelude::*;

verus! {

/// An item whose content is guaranteed to be valid text: the word of a
/// `Word` has been checked, the text of a `Flag` is valid by construction.
#[derive(Debug, Clone, PartialEq, Eq)]
pub enum Item {
    Flag(Vec<u8>),
    Word(Vec<u8>),
}

/// An item as the engine produces it: the text of a `Flag` is always valid
/// UTF-8, the content of a `Word` may be arbitrary bytes.
#[derive(Debug, Clone, PartialEq, Eq)]
pub enum ItemOs {
    Flag(Vec<u8>),
    Word(Vec<u8>),
}

/// The mathematical value of an item.
pub enum ItemSpec {
    Flag(Seq<u8>),
    Word(Seq<u8>),
}

impl View for Item {
    type V = ItemSpec;

    open spec fn view(&self) -> ItemSpec {
        match self {
            Item::Flag(f) => ItemSpec::Flag(f@),
            Item::Word(w) => ItemSpec::Word(w@),
        }
    }
}

impl View for ItemOs {
    type V = ItemSpec;

    open spec fn view(&self) -> ItemSpec {
        match self {
            ItemOs::Flag(f) => ItemSpec::Flag(f@),
            ItemOs::Word(w) => ItemSpec::Word(w@),
        }
    }
}

/// The mathematical value of an engine read: an optional item or an error.
pub open spec fn item_res_view(r: Result<Option<ItemOs>, ArgError>) -> Result<
    Option<ItemSpec>,
    ArgErrorSpec,
> {
    match r {
        Ok(None) => Ok(None),
        Ok(Some(i)) => Ok(Some(i@)),
        Err(e) => Err(e@),
    }
}

/// The mathematical value of a strict-text read.
pub open spec fn strict_res_view(r: Result<Option<Item>, ArgError>) -> Result<
    Option<ItemSpec>,
    ArgErrorSpec,
> {
    match r {
        Ok(None) => Ok(None),
        Ok(Some(i)) => Ok(Some(i@)),
        Err(e) => Err(e@),
    }
}

/// Demanding valid text of a read: a word that does not decode becomes an
/// `InvalidUnicode` error; flags and errors pass through unchanged.
pub open spec fn spec_strict(r: Result<Option<ItemSpec>, ArgErrorSpec>) -> Result<
    Option<ItemSpec>,
    ArgErrorSpec,
> {
    match r {
        Ok(Some(ItemSpec::Word(w))) => if is_utf8(w) {
            Ok(Some(ItemSpec::Word(w)))
        } else {
            Err(ArgErrorSpec::InvalidUnicode(w))
        },
        _ => r,
    }
}

/// Converts a byte-oriented item into a strict-text item, rejecting a word
/// that is not valid UTF-8.
pub fn unicode_item(item: ItemOs) -> (r: Result<Item, ArgError>)
    ensures
        match r {
            Ok(i) => Ok::<Option<ItemSpec>, ArgErrorSpec>(Some(i@)) == spec_strict(
                Ok(Some(item@)),
            ),
            Err(e) => Err::<Option<ItemSpec>, ArgErrorSpec>(e@) == spec_strict(Ok(Some(item@))),
        },
{
    match item {
        ItemOs::Flag(f) => Ok(Item::Flag(f)),
        ItemOs::Word(w) => {
            if is_valid_text(&w) {
                Ok(Item::Word(w))
            } else {
                Err(ArgError::InvalidUnicode(w))
            }
        },
    }
}

/// Converts an optional byte-oriented item, passing `None` through.
pub fn unicode_item_option(item_opt: Option<ItemOs>) -> (r: Result<Option<Item>, ArgError>)
    ensures
        strict_res_view(r) == spec_strict(
            match item_opt {
                None => Ok::<Option<ItemSpec>, ArgErrorSpec>(None),
                Some(i) => Ok(Some(i@)),
            },
        ),
{
    match item_opt {
        None => Ok(None),
        Some(item) => {
            match unicode_item(item) {
                Ok(i) => Ok(Some(i)),
                Err(e) => Err(e),
            }
        },
    }
}

} // verus!
