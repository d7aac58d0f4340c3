//! Finding a text in a long list without walking the whole list.

use crate::text::same_text;
use vstd::prelude::*;
use vstd::utf8::*;

verus! {

/// How many shelves the texts are spread over.
pub const SHELVES: usize = 65_521;

/// The first place of `text` in a list of texts.
pub open spec fn first_place(list: Seq<Seq<char>>, text: Seq<char>) -> Option<nat>
    decreases list.len(),
{
    if list.len() == 0 {
        None
    } else {
        match first_place(list.drop_last(), text) {
            Some(p) => Some(p),
            None => if list.last() == text {
                Some((list.len() - 1) as nat)
            } else {
                None
            },
        }
    }
}

/// The place of a text is the first at which it stands; a text without a place
/// stands nowhere.
pub proof fn a_place_is_the_first(list: Seq<Seq<char>>, text: Seq<char>)
    ensures
        first_place(list, text) matches Some(p) ==> p < list.len() && list[p as int] == text,
        first_place(list, text) matches Some(p) ==> forall|i: int|
            0 <= i < p ==> #[trigger] list[i] != text,
        first_place(list, text) is None <==> !list.contains(text),
    decreases list.len(),
{
    if list.len() > 0 {
        let rest = list.drop_last();
        a_place_is_the_first(rest, text);
        assert forall|i: int| 0 <= i < rest.len() implies rest[i] == #[trigger] list[i] by {}
        if list.contains(text) {
            let i = choose|i: int| 0 <= i < list.len() && list[i] == text;
            if i < rest.len() {
                assert(rest[i] == text);
            }
        }
        if first_place(rest, text) is None {
            assert forall|i: int| 0 <= i < rest.len() implies #[trigger] list[i] != text by {
                assert(rest[i] == list[i]);
                assert(rest.contains(rest[i]));
            }
        }
    }
}

proof fn lemma_first_place(list: Seq<Seq<char>>, text: Seq<char>, p: int)
    requires
        0 <= p < list.len(),
        list[p] == text,
        forall|i: int| 0 <= i < p ==> #[trigger] list[i] != text,
    ensures
        first_place(list, text) == Some(p as nat),
{
    a_place_is_the_first(list, text);
    assert(list.contains(text));
    let q = first_place(list, text)->0;
    if q < p {
        assert(list[q as int] != text);
    }
}

/// The shelf of a text, by its bytes.
pub open spec fn shelf(bytes: Seq<u8>) -> int
    decreases bytes.len(),
{
    if bytes.len() == 0 {
        0
    } else {
        (shelf(bytes.drop_last()) * 31 + bytes.last()) % (SHELVES as int)
    }
}

fn shelf_of(text: &str) -> (r: usize)
    ensures
        r == shelf(encode_utf8(text@)),
        r < SHELVES,
{
    let bytes = text.as_bytes();
    let mut at: u64 = 0;
    let mut i: usize = 0;
    assert(bytes@.take(0) =~= Seq::<u8>::empty());
    while i < bytes.len()
        invariant
            0 <= i <= bytes@.len(),
            at == shelf(bytes@.take(i as int)),
            at < SHELVES,
        decreases bytes@.len() - i,
    {
        proof {
            assert(bytes@.take(i + 1).drop_last() =~= bytes@.take(i as int));
            assert(bytes@.take(i + 1).last() == bytes@[i as int]);
        }
        at = (at * 31 + bytes[i] as u64) % (SHELVES as u64);
        i = i + 1;
    }
    assert(bytes@.take(bytes@.len() as int) =~= bytes@);
    at as usize
}

/// A list of texts, with the places of the texts on shelves by which they are
/// found again.
pub struct TextIndex {
    texts: Vec<String>,
    shelves: Vec<Vec<usize>>,
}

impl TextIndex {
    /// The texts, in their order.
    pub closed spec fn texts(self) -> Seq<Seq<char>> {
        self.texts.deep_view()
    }

    /// Whether each place stands on the shelf of its text, in order, and on no
    /// other.
    pub closed spec fn wf(self) -> bool {
        Self::shelved(self.texts@, self.texts@.len() as int, self.shelves@)
    }

    spec fn shelved(texts: Seq<String>, n: int, shelves: Seq<Vec<usize>>) -> bool {
        &&& shelves.len() == SHELVES
        &&& forall|b: int, k: int|
            0 <= b < SHELVES && 0 <= k < shelves[b]@.len() ==> (#[trigger] shelves[b]@[k]) < n
                && shelf(encode_utf8(texts[shelves[b]@[k] as int]@)) == b
        &&& forall|b: int, k: int, l: int|
            0 <= b < SHELVES && 0 <= k < l < shelves[b]@.len() ==> (#[trigger] shelves[b]@[k]) < (
            #[trigger] shelves[b]@[l])
        &&& forall|i: int|
            0 <= i < n ==> shelves[shelf(encode_utf8((#[trigger] texts[i])@))]@.contains(
                i as usize,
            )
    }

    /// Puts texts on their shelves.
    pub fn new(texts: Vec<String>) -> (r: Self)
        ensures
            r.wf(),
            r.texts() == texts.deep_view(),
    {
        let mut shelves: Vec<Vec<usize>> = Vec::new();
        while shelves.len() < SHELVES
            invariant
                shelves@.len() <= SHELVES,
                forall|b: int| 0 <= b < shelves@.len() ==> (#[trigger] shelves@[b])@.len() == 0,
            decreases SHELVES - shelves@.len(),
        {
            shelves.push(Vec::new());
        }
        let mut i: usize = 0;
        while i < texts.len()
            invariant
                0 <= i <= texts@.len(),
                Self::shelved(texts@, i as int, shelves@),
            decreases texts@.len() - i,
        {
            let b = shelf_of(&texts[i]);
            let ghost before = shelves@;
            shelves[b].push(i);
            proof {
                assert(shelves@[b as int]@ =~= before[b as int]@.push(i));
                assert forall|c: int| 0 <= c < SHELVES && c != b implies #[trigger] shelves@[c]
                    == before[c] by {}
                assert forall|j: int| 0 <= j < i + 1 implies shelves@[shelf(
                    encode_utf8((#[trigger] texts@[j])@),
                )]@.contains(j as usize) by {
                    let c = shelf(encode_utf8(texts@[j]@));
                    if j < i {
                        assert(before[c]@.contains(j as usize));
                        let k = choose|k: int|
                            0 <= k < before[c]@.len() && before[c]@[k] == j as usize;
                        assert(shelves@[c]@[k] == j as usize);
                    } else {
                        assert(shelves@[c]@[before[c]@.len() as int] == j as usize);
                    }
                }
            }
            i = i + 1;
        }
        TextIndex { texts, shelves }
    }

    /// The first place of a text.
    pub fn find(&self, text: &str) -> (r: Option<usize>)
        requires
            self.wf(),
        ensures
            match r {
                Some(p) => first_place(self.texts(), text@) == Some(p as nat),
                None => first_place(self.texts(), text@) is None,
            },
    {
        let b = shelf_of(text);
        let places = &self.shelves[b];
        let ghost list = self.texts();
        let mut k: usize = 0;
        while k < places.len()
            invariant
                0 <= k <= places@.len(),
                self.wf(),
                b == shelf(encode_utf8(text@)),
                0 <= b < SHELVES,
                *places == self.shelves@[b as int],
                list == self.texts(),
                forall|l: int| 0 <= l < k ==> list[#[trigger] places@[l] as int] != text@,
            decreases places@.len() - k,
        {
            let p = places[k];
            assert(self.shelves@[b as int]@[k as int] == p);
            if same_text(&self.texts[p], text) {
                proof {
                    assert forall|i: int| 0 <= i < p implies #[trigger] list[i] != text@ by {
                        if list[i] == text@ {
                            assert(self.texts@[i]@ == text@);
                            assert(places@.contains(i as usize));
                            let l = choose|l: int|
                                0 <= l < places@.len() && places@[l] == i as usize;
                            if l >= k {
                                assert(self.shelves@[b as int]@[k as int]
                                    <= self.shelves@[b as int]@[l]);
                            }
                            assert(list[places@[l] as int] != text@);
                        }
                    }
                    lemma_first_place(list, text@, p as int);
                }
                return Some(p);
            }
            k = k + 1;
        }
        proof {
            a_place_is_the_first(list, text@);
            if list.contains(text@) {
                let i = choose|i: int| 0 <= i < list.len() && list[i] == text@;
                assert(i < self.texts.len());
                assert(self.texts@[i]@ == text@);
                assert(places@.contains(i as usize));
                let l = choose|l: int| 0 <= l < places@.len() && places@[l] == i as usize;
                assert(list[places@[l] as int] != text@);
            }
        }
        None
    }
}

} // verus!
