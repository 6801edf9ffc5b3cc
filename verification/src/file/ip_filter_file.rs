//! A list of addresses, kept in a file as one line with `|` between the
//! addresses.

use crate::text::{join, joined, pieces, same_text, split, texts};
use vstd::prelude::*;

verus! {

/// The character that stands between two addresses in the file.
pub const SEPARATOR: char = '|';

/// A list of addresses.
pub struct IpFilter {
    items: Vec<String>,
}

impl View for IpFilter {
    type V = Seq<Seq<char>>;

    closed spec fn view(&self) -> Seq<Seq<char>> {
        texts(self.items@)
    }
}

/// The list that a file with `contents` holds: the addresses between the
/// separators, and none where the file is empty.
pub open spec fn loaded(contents: Seq<char>) -> Seq<Seq<char>> {
    if contents.len() == 0 {
        Seq::empty()
    } else {
        pieces(contents, SEPARATOR)
    }
}

/// Whether `at` is the first place where `item` stands in `items`.
pub open spec fn first_at(items: Seq<Seq<char>>, item: Seq<char>, at: int) -> bool {
    &&& 0 <= at < items.len()
    &&& items[at] == item
    &&& forall|k: int| 0 <= k < at ==> items[k] != item
}

impl IpFilter {
    /// The list that a file with `contents` holds.
    pub fn load(contents: &str) -> (r: IpFilter)
        ensures
            r@ == loaded(contents@),
    {
        if contents.is_empty() {
            let r = IpFilter { items: Vec::new() };
            assert(r@ =~= Seq::<Seq<char>>::empty());
            r
        } else {
            IpFilter { items: split(contents, SEPARATOR) }
        }
    }

    fn position(&self, item: &String) -> (r: Option<usize>)
        ensures
            match r {
                Some(at) => first_at(self@, item@, at as int),
                None => !self@.contains(item@),
            },
    {
        let mut i: usize = 0;
        while i < self.items.len()
            invariant
                i <= self.items@.len(),
                forall|k: int| 0 <= k < i ==> self@[k] != item@,
            decreases self.items@.len() - i,
        {
            if same_text(&self.items[i], item) {
                return Some(i);
            }
            i = i + 1;
        }
        None
    }

    /// Whether `item` is on the list.
    pub fn has(&self, item: &str) -> (r: bool)
        ensures
            r == self@.contains(item@),
    {
        let wanted: String = item.to_owned();
        self.position(&wanted).is_some()
    }

    /// The contents of the file that holds this list.
    pub fn update(&self) -> (contents: String)
        ensures
            contents@ == joined(self@, SEPARATOR),
    {
        join(&self.items, SEPARATOR)
    }

    /// Puts `item` at the end of the list unless it is on it, and hands
    /// out what the file has to hold from then on. Where the list stays as
    /// it is, nothing is to be written.
    pub fn push(&mut self, item: &str) -> (written: Option<String>)
        ensures
            old(self)@.contains(item@) ==> written is None && final(self)@ == old(self)@,
            !old(self)@.contains(item@) ==> final(self)@ == old(self)@.push(item@) && (
            written matches Some(contents) && contents@ == joined(
                final(self)@,
                SEPARATOR,
            )),
    {
        if self.has(item) {
            return None;
        }
        self.items.push(item.to_owned());
        assert(self@ =~= old(self)@.push(item@));
        Some(self.update())
    }

    /// Takes `item` off the list, at the first place where it stands, and
    /// hands out what the file has to hold from then on. Where the list
    /// stays as it is, nothing is to be written.
    pub fn remove(&mut self, item: &str) -> (written: Option<String>)
        ensures
            !old(self)@.contains(item@) ==> written is None && final(self)@ == old(self)@,
            forall|at: int|
                first_at(old(self)@, item@, at) ==> final(self)@ == old(self)@.remove(at) && (
                written matches Some(contents) && contents@ == joined(final(self)@, SEPARATOR)),
    {
        let wanted: String = item.to_owned();
        match self.position(&wanted) {
            Some(at) => {
                let _ = self.items.remove(at);
                assert(self@ =~= old(self)@.remove(at as int));
                Some(self.update())
            },
            None => None,
        }
    }

    /// The number of addresses on the list.
    pub fn len(&self) -> (n: usize)
        ensures
            n == self@.len(),
    {
        self.items.len()
    }
}

/// Text without a separator, put after other text, grows the last piece.
proof fn lemma_pieces_append(a: Seq<char>, b: Seq<char>, sep: char)
    requires
        !b.contains(sep),
    ensures
        pieces(a, sep).len() >= 1,
        pieces(a + b, sep) == pieces(a, sep).drop_last().push(pieces(a, sep).last() + b),
    decreases b.len(),
{
    crate::text::lemma_join_pieces(a, sep);
    if b.len() == 0 {
        assert(a + b =~= a);
        assert(pieces(a, sep).last() + b =~= pieces(a, sep).last());
        assert(pieces(a, sep).drop_last().push(pieces(a, sep).last()) =~= pieces(a, sep));
    } else {
        let front = b.drop_last();
        assert(!front.contains(sep)) by {
            if front.contains(sep) {
                let i = choose|i: int| 0 <= i < front.len() && front[i] == sep;
                assert(b[i] == sep);
            }
        }
        assert(b.last() != sep) by {
            assert(b[b.len() - 1] == b.last());
        }
        lemma_pieces_append(a, front, sep);
        assert((a + b).drop_last() =~= a + front);
        assert((a + b).last() == b.last());
        let before = pieces(a + front, sep);
        assert(before.last() == pieces(a, sep).last() + front);
        assert(before.drop_last() =~= pieces(a, sep).drop_last());
        assert((pieces(a, sep).last() + front).push(b.last()) =~= pieces(a, sep).last() + b);
    }
}

/// Joining the pieces that end with a text that is not empty gives a text
/// that is not empty.
proof fn lemma_joined_not_empty(items: Seq<Seq<char>>, sep: char)
    requires
        items.len() >= 1,
        items.last().len() > 0,
    ensures
        joined(items, sep).len() > 0,
{
}

proof fn lemma_pieces_joined(items: Seq<Seq<char>>)
    requires
        items.len() >= 1,
        forall|i: int| 0 <= i < items.len() ==> !(#[trigger] items[i]).contains(SEPARATOR),
    ensures
        pieces(joined(items, SEPARATOR), SEPARATOR) == items,
    decreases items.len(),
{
    let sep = SEPARATOR;
    if items.len() == 1 {
        lemma_pieces_append(Seq::empty(), items[0], sep);
        assert(Seq::<char>::empty() + items[0] =~= items[0]);
        assert(pieces(Seq::<char>::empty(), sep) =~= seq![Seq::<char>::empty()]);
        assert(seq![Seq::<char>::empty()].drop_last().push(Seq::<char>::empty() + items[0])
            =~= items);
    } else {
        let front = items.drop_last();
        lemma_pieces_joined(front);
        let head = joined(front, sep).push(sep);
        assert(head.drop_last() =~= joined(front, sep));
        assert(pieces(head, sep) == front.push(Seq::<char>::empty()));
        lemma_pieces_append(head, items.last(), sep);
        assert(front.push(Seq::<char>::empty()).drop_last() =~= front);
        assert(Seq::<char>::empty() + items.last() =~= items.last());
        assert(front.push(items.last()) =~= items);
    }
}

/// Writing a list and loading it again gives the list back, whether it
/// holds addresses or none, as long as no address is empty or holds the
/// separator.
pub proof fn lemma_load_update(items: Seq<Seq<char>>)
    requires
        forall|i: int|
            0 <= i < items.len() ==> (#[trigger] items[i]).len() > 0 && !items[i].contains(
                SEPARATOR,
            ),
    ensures
        loaded(joined(items, SEPARATOR)) == items,
{
    if items.len() == 0 {
        assert(loaded(joined(items, SEPARATOR)) =~= items);
    } else {
        assert(items.last() == items[items.len() - 1]);
        lemma_joined_not_empty(items, SEPARATOR);
        lemma_pieces_joined(items);
    }
}

} // verus!
