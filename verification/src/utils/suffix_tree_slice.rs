use vstd::prelude::*;
use vstd::std_specs::cmp::PartialEqSpec;

verus! {

/// A text over which a suffix tree is built: positions hold elements, and
/// some positions hold an end marker (no element).
pub trait SuffixTreeSlice<TElement: PartialEq> {
    /// The text, position by position: an element or an end marker.
    spec fn text(&self) -> Seq<Option<TElement>>;

    /// Whether the two positions can be cut out as one slice.
    spec fn can_sub_slice(&self, start: usize, end: usize) -> bool;

    fn equals(&self, first: usize, second: usize) -> bool;

    fn len(&self) -> (res: usize)
        ensures
            res == self.text().len();

    fn get(&self, index: usize) -> (res: Option<TElement>)
        ensures
            res == (if index < self.text().len() { self.text()[index as int] } else { None });

    fn sub_slice(&self, start: usize, end: usize) -> Option<&[TElement]>
        requires
            self.can_sub_slice(start, end);
}

/// A single word followed by its end marker.
pub struct SingleWordSuffixTreeSlice<'a, TElement> {
    slice: &'a [TElement],
}

impl<'a, TElement> SingleWordSuffixTreeSlice<'a, TElement> {
    /// The word and its end marker fit in the range of `usize`.
    #[verifier::type_invariant]
    spec fn fits(&self) -> bool {
        self.slice@.len() < usize::MAX
    }

    pub closed spec fn word(&self) -> Seq<TElement> {
        self.slice@
    }

    pub fn new(slice: &'a [TElement]) -> (res: Self)
        requires
            slice@.len() < usize::MAX,
        ensures
            res.word() == slice@,
    {
        Self { slice }
    }
}

/// The elements of a word as text positions.
pub open spec fn word_text<T>(word: Seq<T>) -> Seq<Option<T>> {
    word.map_values(|x: T| Some(x))
}

/// Whether two positions of a text hold equal elements (end markers match nothing).
pub open spec fn positions_equal<T: PartialEq>(a: Option<T>, b: Option<T>) -> bool {
    match (a, b) {
        (Some(x), Some(y)) => x.eq_spec(&y),
        (None, None) => true,
        _ => false,
    }
}

impl<'a, TElement: PartialEq + Copy> SuffixTreeSlice<TElement> for SingleWordSuffixTreeSlice<'a, TElement> {
    open spec fn text(&self) -> Seq<Option<TElement>> {
        word_text(self.word()).push(None)
    }

    open spec fn can_sub_slice(&self, start: usize, end: usize) -> bool {
        start <= end <= self.word().len()
    }

    /// Whether both positions hold elements and these are equal.
    fn equals(&self, first: usize, second: usize) -> (res: bool)
        ensures
            TElement::obeys_eq_spec() ==> res == (first < self.word().len() && second < self.word().len()
                && self.word()[first as int].eq_spec(&self.word()[second as int])),
    {
        if first >= self.slice.len() || second >= self.slice.len() {
            return false;
        }
        self.slice[first] == self.slice[second]
    }

    fn len(&self) -> (res: usize) {
        proof {
            use_type_invariant(self);
        }
        self.slice.len() + 1
    }

    fn get(&self, index: usize) -> (res: Option<TElement>) {
        if index >= self.slice.len() {
            None
        } else {
            Some(*self.slice.get(index).unwrap())
        }
    }

    fn sub_slice(&self, start: usize, end: usize) -> (res: Option<&[TElement]>)
        ensures
            res matches Some(s) && s@ == self.word().subrange(start as int, end as int),
    {
        Some(&self.slice[start..end])
    }
}

/// The positions of the words laid end to end, each followed by its end marker.
pub open spec fn words_text<T>(words: Seq<Seq<T>>) -> Seq<Option<T>>
    decreases words.len(),
{
    if words.len() == 0 {
        Seq::empty()
    } else {
        word_text(words[0]).push(None) + words_text(words.drop_first())
    }
}

/// Where a position of the text lies: the word, and the index in it (`None`
/// for the word's end marker); `None` past the text.
pub open spec fn slice_info<T>(words: Seq<Seq<T>>, index: int) -> Option<(int, Option<int>)>
    decreases words.len(),
{
    if words.len() == 0 || index < 0 {
        None
    } else if index < words[0].len() {
        Some((0, Some(index)))
    } else if index == words[0].len() {
        Some((0, None))
    } else {
        match slice_info(words.drop_first(), index - words[0].len() - 1) {
            Some((w, p)) => Some((w + 1, p)),
            None => None,
        }
    }
}

/// Several words, each followed by its end marker.
pub struct MultipleWordsSuffixTreeSlice<'a, TElement> {
    words: Vec<&'a [TElement]>,
}

impl<'a, TElement> MultipleWordsSuffixTreeSlice<'a, TElement> {
    /// The whole text fits in the range of `usize`.
    #[verifier::type_invariant]
    spec fn fits(&self) -> bool {
        words_text(self.words_view()).len() <= usize::MAX
    }

    pub closed spec fn words_view(&self) -> Seq<Seq<TElement>> {
        self.words@.map_values(|w: &[TElement]| w@)
    }

    pub fn new(words: Vec<&'a [TElement]>) -> (res: Self)
        requires
            words_text(words@.map_values(|w: &[TElement]| w@)).len() <= usize::MAX,
        ensures
            res.words_view() == words@.map_values(|w: &[TElement]| w@),
    {
        Self { words }
    }
}


/// The number of text positions that the first `k` words take up.
pub open spec fn border<T>(words: Seq<Seq<T>>, k: int) -> int
    decreases k,
{
    if k <= 0 {
        0
    } else {
        border(words, k - 1) + words[k - 1].len() + 1
    }
}

/// Moves a location found in the words from the `k`-th on to the whole list.
pub open spec fn shift_info(info: Option<(int, Option<int>)>, k: int) -> Option<(int, Option<int>)> {
    match info {
        Some((w, p)) => Some((w + k, p)),
        None => None,
    }
}

proof fn lemma_info_skip<T>(words: Seq<Seq<T>>, k: int, index: int)
    requires
        0 <= k <= words.len(),
        index >= border(words, k),
    ensures
        slice_info(words, index) == shift_info(slice_info(words.skip(k), index - border(words, k)), k),
    decreases k,
{
    if k == 0 {
        assert(words.skip(0) =~= words);
        match slice_info(words, index) {
            Some((w, p)) => {},
            None => {},
        }
    } else {
        lemma_info_skip(words, k - 1, index);
        let rest = words.skip(k - 1);
        assert(rest[0] == words[k - 1]);
        assert(rest.drop_first() =~= words.skip(k));
        match slice_info(words.skip(k), index - border(words, k)) {
            Some((w, p)) => {},
            None => {},
        }
    }
}

/// The text of the words is as long as the words together, with one end
/// marker after each.
pub proof fn lemma_text_len<T>(words: Seq<Seq<T>>)
    ensures
        words_text(words).len() == border(words, words.len() as int),
    decreases words.len(),
{
    if words.len() > 0 {
        lemma_text_len(words.drop_first());
        lemma_border_first(words, words.len() as int);
    }
}

proof fn lemma_border_first<T>(words: Seq<Seq<T>>, k: int)
    requires
        1 <= k <= words.len(),
    ensures
        border(words, k) == words[0].len() + 1 + border(words.drop_first(), k - 1),
    decreases k,
{
    if k > 1 {
        lemma_border_first(words, k - 1);
        assert(words.drop_first()[k - 2] == words[k - 1]);
        assert(border(words.drop_first(), k - 1) == border(words.drop_first(), k - 2) + words.drop_first()[k - 2].len() + 1);
        assert(border(words, k) == border(words, k - 1) + words[k - 1].len() + 1);
    } else {
        assert(border(words, 1) == border(words, 0) + words[0].len() + 1);
        assert(border(words, 0) == 0);
        assert(border(words.drop_first(), 0) == 0);
    }
}

/// What `slice_info` reports is what the text holds at that position.
pub proof fn lemma_slice_info_text<T>(words: Seq<Seq<T>>, index: int)
    requires
        0 <= index,
    ensures
        match slice_info(words, index) {
            Some((w, Some(p))) => 0 <= w < words.len() && 0 <= p < words[w].len() && index < words_text(words).len()
                && words_text(words)[index] == Some(words[w][p]),
            Some((w, None)) => 0 <= w < words.len() && index < words_text(words).len() && words_text(words)[index] is None,
            None => index >= words_text(words).len(),
        },
    decreases words.len(),
{
    if words.len() > 0 {
        let head = word_text(words[0]).push(None);
        assert(words_text(words) == head + words_text(words.drop_first()));
        if index > words[0].len() {
            lemma_slice_info_text(words.drop_first(), index - words[0].len() - 1);
        }
    }
}

impl<'a, TElement: PartialEq + Copy> MultipleWordsSuffixTreeSlice<'a, TElement> {
    /// Where the position lies: the word and the index in it, `None` in place
    /// of the index at a word's end marker; `None` past the text.
    pub fn get_slice_info_for(&self, index: usize) -> (res: Option<(usize, Option<usize>)>)
        ensures
            match res {
                Some((w, Some(p))) => slice_info(self.words_view(), index as int) == Some((w as int, Some(p as int))),
                Some((w, None)) => slice_info(self.words_view(), index as int) == Some((w as int, None::<int>)),
                None => slice_info(self.words_view(), index as int) is None,
            },
    {
        proof {
            use_type_invariant(self);
            lemma_text_len(self.words_view());
        }
        let ghost words = self.words_view();
        let mut next_word_border: usize = 0;
        let mut slice_index: usize = 0;
        while slice_index < self.words.len()
            invariant
                slice_index <= self.words@.len(),
                words == self.words_view(),
                words.len() == self.words@.len(),
                next_word_border == border(words, slice_index as int),
                index >= next_word_border,
                border(words, words.len() as int) <= usize::MAX,
            decreases self.words@.len() - slice_index,
        {
            let slice = self.words[slice_index];
            proof {
                lemma_border_monotonic(words, slice_index + 1, words.len() as int);
                lemma_info_skip(words, slice_index as int, index as int);
                let rest = words.skip(slice_index as int);
                assert(rest[0] == words[slice_index as int]);
                assert(rest.drop_first() =~= words.skip(slice_index + 1));
                assert(words[slice_index as int] == slice@);
            }
            next_word_border = next_word_border + slice.len();
            if index < next_word_border {
                let index_in_slice = index - (next_word_border - slice.len());
                return Some((slice_index, Some(index_in_slice)));
            }
            if index == next_word_border {
                return Some((slice_index, None));
            }
            next_word_border = next_word_border + 1;
            proof {
                lemma_info_skip(words, slice_index + 1, index as int);
            }
            slice_index = slice_index + 1;
        }
        proof {
            lemma_info_skip(words, slice_index as int, index as int);
            assert(words.skip(slice_index as int).len() == 0);
        }
        return None;
    }

    /// The length of the word at the given index.
    pub fn get_slice_part_len(&self, slice_part_index: usize) -> (res: usize)
        requires
            slice_part_index < self.words_view().len(),
        ensures
            res == self.words_view()[slice_part_index as int].len(),
    {
        self.words[slice_part_index].len()
    }
}

proof fn lemma_border_monotonic<T>(words: Seq<Seq<T>>, j: int, k: int)
    requires
        0 <= j <= k,
    ensures
        border(words, j) <= border(words, k),
    decreases k - j,
{
    if j < k {
        lemma_border_monotonic(words, j, k - 1);
    }
}

impl<'a, TElement: PartialEq + Copy> SuffixTreeSlice<TElement> for MultipleWordsSuffixTreeSlice<'a, TElement> {
    open spec fn text(&self) -> Seq<Option<TElement>> {
        words_text(self.words_view())
    }

    open spec fn can_sub_slice(&self, start: usize, end: usize) -> bool {
        match (slice_info(self.words_view(), start as int), slice_info(self.words_view(), end as int)) {
            (Some((sw, Some(sp))), Some((ew, Some(ep)))) => sw == ew ==> sp <= ep,
            _ => true,
        }
    }

    /// Whether the two positions hold equal elements or both hold end markers.
    fn equals(&self, first: usize, second: usize) -> (res: bool)
        ensures
            TElement::obeys_eq_spec() ==> res == positions_equal(
                if first < self.text().len() { self.text()[first as int] } else { None },
                if second < self.text().len() { self.text()[second as int] } else { None },
            ),
    {
        self.get(first) == self.get(second)
    }

    fn len(&self) -> (res: usize) {
        proof {
            use_type_invariant(self);
            lemma_text_len(self.words_view());
        }
        let ghost words = self.words_view();
        let mut len: usize = 0;
        let mut k: usize = 0;
        while k < self.words.len()
            invariant
                k <= self.words@.len(),
                words == self.words_view(),
                words.len() == self.words@.len(),
                len == border(words, k as int) - k,
                border(words, words.len() as int) <= usize::MAX,
            decreases self.words@.len() - k,
        {
            proof {
                lemma_border_monotonic(words, k + 1, words.len() as int);
                assert(words[k as int] == self.words@[k as int]@);
            }
            len = len + self.words[k].len();
            k = k + 1;
        }
        len = len + self.words.len();
        len
    }

    fn get(&self, index: usize) -> (res: Option<TElement>) {
        proof {
            lemma_slice_info_text(self.words_view(), index as int);
        }
        if let Some((slice_index, Some(index_in_slice))) = self.get_slice_info_for(index) {
            proof {
                assert(self.words_view()[slice_index as int] == self.words@[slice_index as int]@);
            }
            Some(self.words[slice_index][index_in_slice])
        } else {
            None
        }
    }

    fn sub_slice(&self, start: usize, end: usize) -> (res: Option<&[TElement]>)
        ensures
            match (slice_info(self.words_view(), start as int), slice_info(self.words_view(), end as int)) {
                (Some((sw, Some(sp))), Some((ew, ep))) => if sw == ew {
                    res matches Some(s) && s@ == self.words_view()[sw].subrange(sp, match ep {
                        Some(e) => e,
                        None => self.words_view()[sw].len() as int,
                    })
                } else {
                    res is None
                },
                _ => res is None,
            },
    {
        proof {
            lemma_slice_info_text(self.words_view(), start as int);
            lemma_slice_info_text(self.words_view(), end as int);
        }
        if let Some((start_slice_index, Some(start_index_in_slice))) = self.get_slice_info_for(start) {
            if let Some((end_slice_index, end_index_in_slice)) = self.get_slice_info_for(end) {
                if start_slice_index != end_slice_index {
                    None
                } else {
                    proof {
                        assert(self.words_view()[start_slice_index as int] == self.words@[start_slice_index as int]@);
                    }
                    let patched_end_index = if let Some(end_index_in_slice) = end_index_in_slice {
                        end_index_in_slice
                    } else {
                        self.words[start_slice_index].len()
                    };
                    Some(&self.words[start_slice_index][start_index_in_slice..patched_end_index])
                }
            } else {
                None
            }
        } else {
            None
        }
    }
}

} // verus!
