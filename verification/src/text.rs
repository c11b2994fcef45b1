//! Values as text, and lists of them.

use vstd::prelude::*;

verus! {

/// A value that can be written as text.
pub trait Printable {
    /// The text of the value.
    spec fn text(&self) -> Seq<char>;

    /// Writes the value.
    fn to_text(&self) -> (written: String)
        ensures
            written@ == self.text(),
    ;
}

/// The texts of the items, in order.
pub open spec fn texts<D: Printable>(items: Seq<D>) -> Seq<Seq<char>> {
    Seq::new(items.len(), |i: int| items[i].text())
}

/// The texts one after another, with a comma and a space between each two.
pub open spec fn joined(texts: Seq<Seq<char>>) -> Seq<char>
    decreases texts.len(),
{
    if texts.len() == 0 {
        Seq::empty()
    } else if texts.len() == 1 {
        texts[0]
    } else {
        joined(texts.drop_last()) + seq![',', ' '] + texts.last()
    }
}

/// A list as text: the items in square brackets, separated by a comma and a space.
pub open spec fn list_text(texts: Seq<Seq<char>>) -> Seq<char> {
    seq!['['] + joined(texts) + seq![']']
}

/// Writes the items as a list in square brackets, separated by a comma and a space;
/// `[]` when there are none.
pub fn iterable_to_str<D: Printable>(iterable: &[D]) -> (written: String)
    ensures
        written@ == list_text(texts(iterable@)),
{
    let ghost all = texts(iterable@);
    proof {
        reveal_strlit("[]");
        reveal_strlit("[");
        reveal_strlit("]");
    }
    if iterable.len() == 0 {
        return String::from_str("[]");
    }
    let mut written = String::from_str("[");
    let head = iterable[0].to_text();
    written.append(head.as_str());
    let mut i: usize = 1;
    assert(all.take(1).len() == 1);
    assert(written@ == seq!['['] + joined(all.take(1)));
    while i < iterable.len()
        invariant
            1 <= i <= iterable.len(),
            all == texts(iterable@),
            written@ == seq!['['] + joined(all.take(i as int)),
        decreases iterable.len() - i,
    {
        let ghost longer = all.take(i + 1);
        assert(longer.drop_last() == all.take(i as int));
        assert(longer.last() == iterable@[i as int].text());
        proof {
            reveal_strlit(", ");
        }
        written.append(", ");
        let item = iterable[i].to_text();
        written.append(item.as_str());
        assert(written@ == seq!['['] + joined(longer));
        i += 1;
    }
    assert(all.take(i as int) == all);
    written.append("]");
    written
}

} // verus!
