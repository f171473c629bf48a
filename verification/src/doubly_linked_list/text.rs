//! The textual listing of a list.

use vstd::prelude::*;
use vstd::string::*;

verus! {

/// The texts in order, with a comma and a space between neighbours.
pub open spec fn joined(texts: Seq<Seq<char>>) -> Seq<char>
    decreases texts.len(),
{
    if texts.len() == 0 {
        Seq::empty()
    } else if texts.len() == 1 {
        texts[0]
    } else {
        joined(texts.drop_last()) + ", "@ + texts.last()
    }
}

/// The listing of a list whose values read as `texts`: the type's name, a
/// space, and the joined texts in square brackets.
pub open spec fn listing(texts: Seq<Seq<char>>) -> Seq<char> {
    "DoublyLinkedList ["@ + joined(texts) + "]"@
}

/// The listing of an empty list is the type's name, a space, and an empty
/// pair of square brackets.
pub proof fn lemma_listing_of_nothing()
    ensures
        listing(Seq::empty()) == "DoublyLinkedList []"@,
{
    reveal_strlit("DoublyLinkedList [");
    reveal_strlit("]");
    reveal_strlit("DoublyLinkedList []");
    assert(listing(Seq::empty()) =~= "DoublyLinkedList []"@);
}

/// Writes the listing of a list whose values read as `texts`.
pub fn listing_of(texts: &Vec<String>) -> (text: String)
    ensures
        text@ == listing(texts.deep_view()),
{
    let mut text = String::from_str("DoublyLinkedList [");
    let ghost all = texts.deep_view();
    for i in 0..texts.len()
        invariant
            all == texts.deep_view(),
            text@ == "DoublyLinkedList ["@ + joined(all.take(i as int)),
    {
        if i > 0 {
            text.append(", ");
        }
        text.append(texts[i].as_str());
        proof {
            let shorter = all.take(i as int);
            let longer = all.take(i + 1);
            assert(longer.drop_last() =~= shorter);
            assert(longer.last() == texts[i as int]@);
            if i == 0 {
                assert(joined(shorter) =~= Seq::<char>::empty());
                assert(text@ =~= "DoublyLinkedList ["@ + joined(longer));
            } else {
                assert(text@ =~= "DoublyLinkedList ["@ + joined(longer));
            }
        }
    }
    proof {
        assert(all.take(texts.len() as int) =~= all);
    }
    text.append("]");
    text
}

/// How a value reads in a listing: what `{:?}` writes for it. Nothing is
/// claimed about the text, since the value's type decides it.
#[verifier::external_body]
pub(crate) fn debug_text<T: core::fmt::Debug>(value: &T) -> (text: String) {
    format!("{:?}", value)
}

} // verus!
