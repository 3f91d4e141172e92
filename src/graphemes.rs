//! A text held as its grapheme clusters.
use vstd::prelude::*;
use unicode_segmentation::UnicodeSegmentation;

verus! {

/// The extended grapheme clusters of a text, in order.
pub uninterp spec fn graphemes_of(s: Seq<char>) -> Seq<Seq<char>>;

/// The words of a text by the Unicode word boundary rules, in order.
pub uninterp spec fn unicode_words_of(s: Seq<char>) -> Seq<Seq<char>>;

/// Relies on `UnicodeSegmentation::graphemes(s, true)`: the extended grapheme clusters
/// of `s`, in order, each copied into a `String`.
#[verifier::external_body]
fn split_graphemes(s: &str) -> (r: Vec<String>)
    ensures
        r@.map_values(|g: String| g@) == graphemes_of(s@),
{
    s.graphemes(true).map(|g| g.to_string()).collect()
}

/// Relies on `UnicodeSegmentation::unicode_words`: the words of `s` by the Unicode word
/// boundaries (pieces holding a letter or a number), in order, each copied into a `String`.
#[verifier::external_body]
fn split_words(s: &str) -> (r: Vec<String>)
    ensures
        r@.map_values(|w: String| w@) == unicode_words_of(s@),
{
    s.unicode_words().map(|w| w.to_string()).collect()
}

/// The pieces joined end to end.
pub open spec fn concat_all(pieces: Seq<Seq<char>>) -> Seq<char>
    decreases pieces.len(),
{
    if pieces.len() == 0 {
        Seq::empty()
    } else {
        concat_all(pieces.drop_last()) + pieces.last()
    }
}

/// A text held as a sequence of grapheme clusters.
pub struct Buffy {
    inner: Vec<String>,
}

impl View for Buffy {
    type V = Seq<Seq<char>>;

    closed spec fn view(&self) -> Seq<Seq<char>> {
        self.inner@.map_values(|g: String| g@)
    }
}

impl Buffy {
    /// The grapheme clusters of `item`.
    pub fn new(item: &str) -> (r: Self)
        ensures
            r@ == graphemes_of(item@),
    {
        Buffy { inner: split_graphemes(item) }
    }

    /// Inserts the grapheme clusters of `item` before the cluster at `index`.
    pub fn insert(&mut self, index: usize, item: &str)
        requires
            index <= old(self)@.len(),
        ensures
            final(self)@ == old(self)@.take(index as int) + graphemes_of(item@) + old(self)@.skip(
                index as int,
            ),
    {
        let mut graph = split_graphemes(item);
        let ghost added = graphemes_of(item@);
        let ghost before = self@;
        while graph.len() > 0
            invariant
                index <= before.len(),
                added == graphemes_of(item@),
                graph@.len() <= added.len(),
                graph@.map_values(|g: String| g@) == added.take(graph@.len() as int),
                self@ == before.take(index as int) + added.skip(graph@.len() as int) + before.skip(
                    index as int,
                ),
            decreases graph@.len(),
        {
            let ghost n = graph@.len();
            let ghost old_graph = graph@;
            proof {
                assert(old_graph.map_values(|g: String| g@)[n - 1] == old_graph[n - 1]@);
                assert(self.inner@.len() == self@.len());
            }
            match graph.pop() {
                Some(g) => {
                    let ghost old_self = self@;
                    let ghost gv = g@;
                    self.inner.insert(index, g);
                    assert(self@ =~= old_self.insert(index as int, gv));
                    assert(added.take(n as int)[n - 1] == gv);
                    assert(added.skip(n - 1) =~= seq![gv] + added.skip(n as int));
                    assert(graph@.map_values(|g: String| g@) =~= added.take(graph@.len() as int));
                    assert(self@ =~= before.take(index as int) + added.skip(graph@.len() as int)
                        + before.skip(index as int));
                },
                None => {},
            }
        }
        assert(added.skip(0) =~= added);
    }

    /// The cluster at `index`, or `None` past the end.
    pub fn get(&self, index: usize) -> (r: Option<&String>)
        ensures
            index < self@.len() ==> r is Some && r->0@ == self@[index as int],
            index >= self@.len() ==> r is None,
    {
        if index < self.inner.len() {
            Some(&self.inner[index])
        } else {
            None
        }
    }

    /// The clusters from `range.start` up to `range.end`, or `None` unless
    /// `range.start <= range.end <= len`.
    pub fn get_range(&self, range: std::ops::Range<usize>) -> (r: Option<&[String]>)
        ensures
            range.start <= range.end <= self@.len() ==> r is Some && r->0@.map_values(
                |g: String| g@,
            ) == self@.subrange(range.start as int, range.end as int),
            !(range.start <= range.end <= self@.len()) ==> r is None,
    {
        if range.start <= range.end && range.end <= self.inner.len() {
            let s = vstd::slice::slice_subrange(self.inner.as_slice(), range.start, range.end);
            assert(s@.map_values(|g: String| g@) =~= self@.subrange(
                range.start as int,
                range.end as int,
            ));
            Some(s)
        } else {
            None
        }
    }

    /// The words of the whole text, by the Unicode word boundaries.
    pub fn words(&self) -> (r: Vec<String>)
        ensures
            r@.map_values(|w: String| w@) == unicode_words_of(concat_all(self@)),
    {
        let mut text = String::new();
        let mut i: usize = 0;
        while i < self.inner.len()
            invariant
                i <= self@.len(),
                text@ == concat_all(self@.take(i as int)),
            decreases self@.len() - i,
        {
            text.append(self.inner[i].as_str());
            proof {
                assert(self@.take(i + 1).drop_last() =~= self@.take(i as int));
            }
            i = i + 1;
        }
        assert(self@.take(i as int) =~= self@);
        split_words(text.as_str())
    }
}

} // verus!
