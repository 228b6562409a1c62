use unicode_segmentation::UnicodeSegmentation;
use unicode_width::UnicodeWidthChar;
use vstd::prelude::*;
use vstd::seq_lib::lemma_flatten_concat;

verus! {

/// The longest row, in characters, that the editor keeps. A `Vec<char>` cannot
/// hold more on a 32-bit target, and every column sum below then fits a `usize`.
pub const MAX_ROW_CHARS: usize = 0x1fff_ffff;

/// The extended grapheme clusters of a text.
pub uninterp spec fn grapheme_clusters(s: Seq<char>) -> Seq<Seq<char>>;

/// The displayed width of one character; `None` for a control character.
pub uninterp spec fn char_columns(c: char) -> Option<usize>;

/// Relies on `UnicodeSegmentation::graphemes` (extended clusters): it hands out
/// consecutive, non-empty slices of the text that together cover it.
#[verifier::external_body]
fn split_graphemes(text: &Vec<char>) -> (r: Vec<Vec<char>>)
    ensures
        r@.map_values(|g: Vec<char>| g@) == grapheme_clusters(text@),
        r@.map_values(|g: Vec<char>| g@).flatten() == text@,
        forall|i: int| 0 <= i < r@.len() ==> (#[trigger] r@[i])@.len() > 0,
{
    let s: String = text.iter().collect();
    s.graphemes(true).map(|g| g.chars().collect()).collect()
}

/// Relies on `UnicodeWidthChar::width`: the displayed width of a character,
/// ambiguous-width characters counted narrow.
#[verifier::external_body]
fn char_width(c: char) -> (r: Option<usize>)
    ensures
        r == char_columns(c),
{
    UnicodeWidthChar::width(c)
}

/// A cluster is wide when one of its characters is two columns wide.
pub open spec fn is_wide(g: Seq<char>) -> bool {
    exists|i: int| 0 <= i < g.len() && char_columns(#[trigger] g[i]) == Some(2usize)
}

/// Columns taken by one grapheme cluster: 2 if it is wide, else 1.
pub open spec fn cell_width(g: Seq<char>) -> nat {
    if is_wide(g) {
        2
    } else {
        1
    }
}

/// Display column of cursor stop `k`: the widths of the clusters before it.
pub open spec fn columns_before(gs: Seq<Seq<char>>, k: int) -> nat
    decreases k,
{
    if k <= 0 {
        0
    } else {
        columns_before(gs, k - 1) + cell_width(gs[k - 1])
    }
}

/// Character offset of cursor stop `k`.
pub open spec fn stop_offset(gs: Seq<Seq<char>>, k: int) -> int {
    gs.take(k).flatten().len() as int
}

/// Number of cursor stops before the end of a text: its cluster count.
pub open spec fn stop_count(s: Seq<char>) -> int {
    grapheme_clusters(s).len() as int
}

/// Character offset of cursor stop `k` of text `s`.
pub open spec fn offset_in(s: Seq<char>, k: int) -> int {
    stop_offset(grapheme_clusters(s), k)
}

/// Display column of cursor stop `k` of text `s`.
pub open spec fn column_in(s: Seq<char>, k: int) -> nat {
    columns_before(grapheme_clusters(s), k)
}

/// Display width of text `s`.
pub open spec fn width_of(s: Seq<char>) -> nat {
    column_in(s, stop_count(s))
}

/// The smallest stop whose column reaches `col`, or the last stop.
pub open spec fn stop_at_column(s: Seq<char>, col: nat) -> int {
    if exists|k: int| 0 <= k <= stop_count(s) && column_in(s, k) >= col {
        choose|k: int|
            0 <= k <= stop_count(s) && column_in(s, k) >= col && forall|j: int|
                0 <= j < k ==> column_in(s, j) < col
    } else {
        stop_count(s)
    }
}

/// What is shown of the first `k` clusters between columns `start` and `end`:
/// the clusters that lie wholly inside the window.
pub open spec fn render_upto(gs: Seq<Seq<char>>, start: nat, end: nat, k: int) -> Seq<char>
    decreases k,
{
    if k <= 0 {
        Seq::empty()
    } else {
        let c = columns_before(gs, k - 1);
        let prev = render_upto(gs, start, end, k - 1);
        if start <= c && c + cell_width(gs[k - 1]) <= end {
            prev + gs[k - 1]
        } else {
            prev
        }
    }
}

/// What a row shows between columns `start` and `end`.
pub open spec fn rendered(s: Seq<char>, start: nat, end: nat) -> Seq<char> {
    render_upto(grapheme_clusters(s), start, end, stop_count(s))
}

/// The text with cluster `k` taken out.
pub open spec fn without_cluster(s: Seq<char>, k: int) -> Seq<char> {
    s.take(offset_in(s, k)) + s.skip(offset_in(s, k + 1))
}

/// The text with `ch` put in at cursor stop `k`.
pub open spec fn with_char(s: Seq<char>, k: int, ch: char) -> Seq<char> {
    s.take(offset_in(s, k)) + seq![ch] + s.skip(offset_in(s, k))
}

/// `query` stands in `s` from cursor stop `k` on.
pub open spec fn matches_at(s: Seq<char>, query: Seq<char>, k: int) -> bool {
    0 <= k <= stop_count(s) && offset_in(s, k) + query.len() <= s.len() && s.subrange(
        offset_in(s, k),
        offset_in(s, k) + query.len(),
    ) == query
}

/// Why a row refused an edit.
#[derive(PartialEq, Eq, Structural, Clone, Copy, Debug)]
pub enum RowError {
    /// The cursor stop lies past the end of the row.
    OutOfRange,
    /// The row would grow past `MAX_ROW_CHARS`.
    Full,
}

/// One more cluster in the prefix adds that cluster's characters.
pub proof fn lemma_take_push_flatten(gs: Seq<Seq<char>>, i: int)
    requires
        0 <= i < gs.len(),
    ensures
        gs.take(i + 1).flatten() == gs.take(i).flatten() + gs[i],
{
    assert(gs.take(i + 1) =~= gs.take(i).push(gs[i]));
    gs.take(i).lemma_flatten_push(gs[i]);
}

/// The characters before a stop and those after it make up the text.
pub proof fn lemma_take_skip_flatten(gs: Seq<Seq<char>>, k: int)
    requires
        0 <= k <= gs.len(),
    ensures
        gs.take(k).flatten() + gs.skip(k).flatten() == gs.flatten(),
{
    assert(gs =~= gs.take(k) + gs.skip(k));
    lemma_flatten_concat(gs.take(k), gs.skip(k));
}

/// Each cluster takes at most two columns.
pub proof fn lemma_columns_bound(gs: Seq<Seq<char>>, k: int)
    requires
        0 <= k,
    ensures
        columns_before(gs, k) <= 2 * k,
    decreases k,
{
    if k > 0 {
        lemma_columns_bound(gs, k - 1);
    }
}

/// Each cluster is non-empty, so there are no more clusters than characters.
pub proof fn lemma_count_le_len(gs: Seq<Seq<char>>)
    requires
        forall|i: int| 0 <= i < gs.len() ==> (#[trigger] gs[i]).len() > 0,
    ensures
        gs.len() <= gs.flatten().len(),
    decreases gs.len(),
{
    if gs.len() > 0 {
        assert(gs[0].len() > 0);
        assert forall|i: int| 0 <= i < gs.drop_first().len() implies (#[trigger] gs.drop_first()[
            i]).len() > 0 by {
            assert(gs.drop_first()[i] == gs[i + 1]);
        }
        lemma_count_le_len(gs.drop_first());
    }
}

/// Offsets grow with the stop, from 0 to the text's length.
pub proof fn lemma_offset_bounds(gs: Seq<Seq<char>>, j: int, k: int)
    requires
        0 <= j <= k <= gs.len(),
    ensures
        0 <= stop_offset(gs, j) <= stop_offset(gs, k) <= gs.flatten().len(),
        stop_offset(gs, gs.len() as int) == gs.flatten().len(),
{
    assert(gs.take(gs.len() as int) =~= gs);
    lemma_take_skip_flatten(gs.take(k), j);
    assert(gs.take(k).take(j) =~= gs.take(j));
    lemma_take_skip_flatten(gs, k);
}

/// A line of text with its grapheme clusters and their display widths.
pub struct Row {
    content: Vec<char>,
    graphemes: Vec<Vec<char>>,
    word_width_index: Vec<usize>,
}

impl View for Row {
    type V = Seq<char>;

    closed spec fn view(&self) -> Seq<char> {
        self.content@
    }
}

fn copy_range(v: &Vec<char>, lo: usize, hi: usize, out: &mut Vec<char>)
    requires
        lo <= hi <= v@.len(),
    ensures
        final(out)@ == old(out)@ + v@.subrange(lo as int, hi as int),
{
    let mut i = lo;
    while i < hi
        invariant
            lo <= i <= hi <= v@.len(),
            out@ == old(out)@ + v@.subrange(lo as int, i as int),
        decreases hi - i,
    {
        out.push(v[i]);
        assert(v@.subrange(lo as int, i + 1) =~= v@.subrange(lo as int, i as int).push(v@[i as int]));
        i = i + 1;
    }
}

/// Columns taken by one cluster.
fn cluster_width(g: &Vec<char>) -> (r: usize)
    ensures
        r == cell_width(g@),
{
    let mut i: usize = 0;
    while i < g.len()
        invariant
            0 <= i <= g@.len(),
            forall|j: int| 0 <= j < i ==> char_columns(#[trigger] g@[j]) != Some(2usize),
        decreases g@.len() - i,
    {
        match char_width(g[i]) {
            Some(w) => {
                if w == 2 {
                    return 2;
                }
            },
            None => {},
        }
        i = i + 1;
    }
    1
}

impl Row {
    /// The row is well formed: its tables are those of its content.
    pub closed spec fn wf(&self) -> bool {
        &&& self.content@.len() <= MAX_ROW_CHARS
        &&& self.graphemes@.map_values(|g: Vec<char>| g@) == grapheme_clusters(self.content@)
        &&& grapheme_clusters(self.content@).flatten() == self.content@
        &&& forall|i: int|
            0 <= i < grapheme_clusters(self.content@).len() ==> (#[trigger] grapheme_clusters(
                self.content@,
            )[i]).len() > 0
        &&& self.word_width_index@.len() == grapheme_clusters(self.content@).len()
        &&& forall|i: int|
            0 <= i < self.word_width_index@.len() ==> #[trigger] self.word_width_index@[i]
                == cell_width(grapheme_clusters(self.content@)[i])
    }

    /// The word index: the width of each cluster, one entry per cursor stop
    /// before the end of the row.
    pub closed spec fn widths(&self) -> Seq<usize> {
        self.word_width_index@
    }

    /// What a well-formed row's content satisfies.
    pub proof fn lemma_wf(&self)
        requires
            self.wf(),
        ensures
            self@.len() <= MAX_ROW_CHARS,
            grapheme_clusters(self@).flatten() == self@,
            stop_count(self@) <= self@.len(),
            forall|i: int|
                0 <= i < stop_count(self@) ==> (#[trigger] grapheme_clusters(self@)[i]).len() > 0,
    {
        lemma_count_le_len(grapheme_clusters(self@));
    }

    /// The word index has one entry per grapheme cluster of the content.
    pub proof fn lemma_index_matches_graphemes(&self)
        requires
            self.wf(),
        ensures
            self.widths().len() == stop_count(self@),
            forall|i: int|
                0 <= i < stop_count(self@) ==> self.widths()[i] as nat == cell_width(
                    #[trigger] grapheme_clusters(self@)[i],
                ),
    {
    }

    /// Builds a row from its text.
    pub fn from_text(text: Vec<char>) -> (r: Row)
        requires
            text@.len() <= MAX_ROW_CHARS,
        ensures
            r.wf(),
            r@ == text@,
    {
        let graphemes = split_graphemes(&text);
        let ghost gs = graphemes@.map_values(|g: Vec<char>| g@);
        let mut word_width_index: Vec<usize> = Vec::new();
        let mut i: usize = 0;
        while i < graphemes.len()
            invariant
                0 <= i <= graphemes@.len(),
                gs == graphemes@.map_values(|g: Vec<char>| g@),
                word_width_index@.len() == i,
                forall|j: int|
                    0 <= j < i ==> #[trigger] word_width_index@[j] == cell_width(gs[j]),
            decreases graphemes@.len() - i,
        {
            let w = cluster_width(&graphemes[i]);
            word_width_index.push(w);
            i = i + 1;
        }
        assert forall|j: int| 0 <= j < gs.len() implies (#[trigger] gs[j]).len() > 0 by {
            assert(gs[j] == graphemes@[j]@);
        }
        Row { content: text, graphemes, word_width_index }
    }

    /// The row's text.
    pub fn content(&self) -> (r: Vec<char>)
        ensures
            r@ == self@,
    {
        let mut out: Vec<char> = Vec::new();
        copy_range(&self.content, 0, self.content.len(), &mut out);
        assert(out@ =~= self@);
        out
    }

    /// Number of grapheme clusters: the cursor stops before the row's end.
    pub fn grapheme_count(&self) -> (r: usize)
        requires
            self.wf(),
        ensures
            r == stop_count(self@),
    {
        self.graphemes.len()
    }

    pub fn is_empty(&self) -> (r: bool)
        requires
            self.wf(),
        ensures
            r == (stop_count(self@) == 0),
    {
        self.graphemes.len() == 0
    }

    /// The word index: the display width of each cluster.
    pub fn word_width_index(&self) -> (r: Vec<usize>)
        requires
            self.wf(),
        ensures
            r@ == self.widths(),
            r@.len() == stop_count(self@),
            forall|i: int|
                0 <= i < r@.len() ==> #[trigger] r@[i] as nat == cell_width(
                    grapheme_clusters(self@)[i],
                ),
    {
        let mut out: Vec<usize> = Vec::new();
        let mut i: usize = 0;
        while i < self.word_width_index.len()
            invariant
                self.wf(),
                0 <= i <= self.word_width_index@.len(),
                out@ == self.word_width_index@.take(i as int),
            decreases self.word_width_index@.len() - i,
        {
            out.push(self.word_width_index[i]);
            assert(self.word_width_index@.take(i + 1) =~= self.word_width_index@.take(
                i as int,
            ).push(self.word_width_index@[i as int]));
            i = i + 1;
        }
        assert(out@ =~= self.word_width_index@);
        out
    }

    /// Display column of cursor stop `k`: the sum of the first `k` widths.
    pub fn word_index_to_column(&self, k: usize) -> (r: usize)
        requires
            self.wf(),
            k <= stop_count(self@),
        ensures
            r == column_in(self@, k as int),
    {
        let ghost gs = grapheme_clusters(self@);
        proof {
            self.lemma_wf();
            lemma_columns_bound(gs, k as int);
        }
        let mut col: usize = 0;
        let mut i: usize = 0;
        while i < k
            invariant
                self.wf(),
                gs == grapheme_clusters(self@),
                k <= gs.len() <= MAX_ROW_CHARS,
                0 <= i <= k,
                col == columns_before(gs, i as int),
            decreases k - i,
        {
            proof {
                lemma_columns_bound(gs, i + 1);
            }
            col = col + self.word_width_index[i];
            i = i + 1;
        }
        col
    }

    /// Display width of the whole row.
    pub fn display_width(&self) -> (r: usize)
        requires
            self.wf(),
        ensures
            r == width_of(self@),
    {
        self.word_index_to_column(self.graphemes.len())
    }

    /// The first cursor stop whose column reaches `col`, or the end of the row.
    pub fn column_to_word_index(&self, col: usize) -> (r: usize)
        requires
            self.wf(),
        ensures
            r as int == stop_at_column(self@, col as nat),
            r <= stop_count(self@),
    {
        let ghost gs = grapheme_clusters(self@);
        proof {
            self.lemma_wf();
        }
        let n = self.graphemes.len();
        let mut i: usize = 0;
        while i <= n
            invariant
                self.wf(),
                gs == grapheme_clusters(self@),
                n == gs.len(),
                n <= MAX_ROW_CHARS,
                0 <= i <= n + 1,
                forall|j: int| 0 <= j < i ==> column_in(self@, j) < col,
            decreases n + 1 - i,
        {
            let c = self.word_index_to_column(i);
            if c >= col {
                assert(exists|k: int| 0 <= k <= stop_count(self@) && column_in(self@, k) >= col) by {
                    assert(0 <= i <= stop_count(self@) && column_in(self@, i as int) >= col);
                }
                let ghost p = stop_at_column(self@, col as nat);
                proof {
                    if p < i {
                        assert(column_in(self@, p) < col);
                    }
                    if p > i {
                        assert(column_in(self@, i as int) < col);
                    }
                }
                return i;
            }
            i = i + 1;
        }
        assert(!exists|k: int| 0 <= k <= stop_count(self@) && column_in(self@, k) >= col);
        n
    }

    /// Character offset of cursor stop `k`.
    fn offset_of(&self, k: usize) -> (r: usize)
        requires
            self.wf(),
            k <= stop_count(self@),
        ensures
            r == offset_in(self@, k as int),
            r <= self@.len(),
            self@.take(r as int) == grapheme_clusters(self@).take(k as int).flatten(),
            self@.skip(r as int) == grapheme_clusters(self@).skip(k as int).flatten(),
    {
        let ghost gs = grapheme_clusters(self@);
        proof {
            lemma_offset_bounds(gs, k as int, k as int);
            lemma_take_skip_flatten(gs, k as int);
            assert(self@.take(offset_in(self@, k as int)) =~= gs.take(k as int).flatten());
            assert(self@.skip(offset_in(self@, k as int)) =~= gs.skip(k as int).flatten());
        }
        let mut off: usize = 0;
        let mut i: usize = 0;
        while i < k
            invariant
                self.wf(),
                gs == grapheme_clusters(self@),
                k <= gs.len(),
                0 <= i <= k,
                off == stop_offset(gs, i as int),
            decreases k - i,
        {
            proof {
                lemma_take_push_flatten(gs, i as int);
                lemma_offset_bounds(gs, i + 1, i + 1);
                assert(self.graphemes@[i as int]@ == gs[i as int]);
            }
            off = off + self.graphemes[i].len();
            i = i + 1;
        }
        off
    }

    /// Whether `query` stands in the row from cursor stop `k` on.
    pub fn matches_at(&self, query: &Vec<char>, k: usize) -> (r: bool)
        requires
            self.wf(),
        ensures
            r == matches_at(self@, query@, k as int),
    {
        if k > self.graphemes.len() {
            return false;
        }
        proof {
            self.lemma_wf();
        }
        let off = self.offset_of(k);
        if query.len() > self.content.len() - off {
            return false;
        }
        let mut i: usize = 0;
        while i < query.len()
            invariant
                off + query@.len() <= self@.len(),
                off == offset_in(self@, k as int),
                k <= stop_count(self@),
                self@.len() <= MAX_ROW_CHARS,
                self@ == self.content@,
                0 <= i <= query@.len(),
                forall|j: int| 0 <= j < i ==> self@[off + j] == query@[j],
            decreases query@.len() - i,
        {
            if self.content[off + i] != query[i] {
                let ghost w = self@.subrange(off as int, off + query@.len());
                assert(w[i as int] != query@[i as int]);
                return false;
            }
            i = i + 1;
        }
        assert(self@.subrange(off as int, off + query@.len()) =~= query@);
        true
    }

    /// The first cursor stop at or after `from` where `query` stands.
    pub fn find_from(&self, query: &Vec<char>, from: usize) -> (r: Option<usize>)
        requires
            self.wf(),
        ensures
            r matches Some(x) ==> from <= x && matches_at(self@, query@, x as int) && forall|j: int|
                from <= j < x ==> !matches_at(self@, query@, j),
            r is None ==> forall|j: int| from <= j ==> !matches_at(self@, query@, j),
    {
        proof {
            self.lemma_wf();
        }
        let n = self.graphemes.len();
        let mut x = from;
        while x <= n
            invariant
                self.wf(),
                n == stop_count(self@),
                n <= MAX_ROW_CHARS,
                from <= x,
                x <= n + 1 || x == from,
                forall|j: int| from <= j < x ==> !matches_at(self@, query@, j),
            decreases n + 1 - x,
        {
            if self.matches_at(query, x) {
                return Some(x);
            }
            x = x + 1;
        }
        None
    }

    /// The last cursor stop before `limit` where `query` stands.
    pub fn rfind_before(&self, query: &Vec<char>, limit: usize) -> (r: Option<usize>)
        requires
            self.wf(),
        ensures
            r matches Some(x) ==> x < limit && matches_at(self@, query@, x as int) && forall|j: int|
                x < j < limit ==> !matches_at(self@, query@, j),
            r is None ==> forall|j: int| 0 <= j < limit ==> !matches_at(self@, query@, j),
    {
        proof {
            self.lemma_wf();
        }
        let n = self.graphemes.len();
        let mut x = if limit > n {
            n + 1
        } else {
            limit
        };
        while x > 0
            invariant
                self.wf(),
                n == stop_count(self@),
                n <= MAX_ROW_CHARS,
                x <= limit,
                forall|j: int| x <= j < limit ==> !matches_at(self@, query@, j),
            decreases x,
        {
            x = x - 1;
            if self.matches_at(query, x) {
                return Some(x);
            }
        }
        None
    }

    /// Puts `ch` in before cursor stop `k`.
    pub fn insert_at(&mut self, k: usize, ch: char) -> (r: Result<(), RowError>)
        requires
            old(self).wf(),
        ensures
            final(self).wf(),
            r == Err::<(), RowError>(RowError::OutOfRange) <==> k > stop_count(old(self)@),
            r == Err::<(), RowError>(RowError::Full) <==> k <= stop_count(old(self)@)
                && old(self)@.len() == MAX_ROW_CHARS,
            r is Ok ==> final(self)@ == with_char(old(self)@, k as int, ch),
            r is Err ==> final(self)@ == old(self)@,
    {
        if k > self.graphemes.len() {
            return Err(RowError::OutOfRange);
        }
        proof {
            self.lemma_wf();
        }
        if self.content.len() >= MAX_ROW_CHARS {
            return Err(RowError::Full);
        }
        let off = self.offset_of(k);
        let mut text: Vec<char> = Vec::new();
        copy_range(&self.content, 0, off, &mut text);
        text.push(ch);
        copy_range(&self.content, off, self.content.len(), &mut text);
        assert(text@ =~= with_char(old(self)@, k as int, ch));
        *self = Row::from_text(text);
        Ok(())
    }

    /// Takes out the cluster at cursor stop `k`; at the end of the row nothing changes.
    pub fn delete_at(&mut self, k: usize) -> (r: Result<(), RowError>)
        requires
            old(self).wf(),
        ensures
            final(self).wf(),
            r is Err <==> k > stop_count(old(self)@),
            r is Err ==> r == Err::<(), RowError>(RowError::OutOfRange),
            k == stop_count(old(self)@) ==> final(self)@ == old(self)@,
            k < stop_count(old(self)@) ==> final(self)@ == without_cluster(old(self)@, k as int),
            r is Err ==> final(self)@ == old(self)@,
    {
        if k > self.graphemes.len() {
            return Err(RowError::OutOfRange);
        }
        if k == self.graphemes.len() {
            return Ok(());
        }
        proof {
            self.lemma_wf();
            lemma_offset_bounds(grapheme_clusters(self@), k as int, k + 1);
        }
        let lo = self.offset_of(k);
        let hi = self.offset_of(k + 1);
        let mut text: Vec<char> = Vec::new();
        copy_range(&self.content, 0, lo, &mut text);
        copy_range(&self.content, hi, self.content.len(), &mut text);
        assert(text@ =~= without_cluster(old(self)@, k as int));
        *self = Row::from_text(text);
        Ok(())
    }

    /// Parts the row at cursor stop `k` into the text before it and the text after it.
    pub fn split_at(&self, k: usize) -> (r: (Row, Row))
        requires
            self.wf(),
            k <= stop_count(self@),
        ensures
            r.0.wf(),
            r.1.wf(),
            r.0@ == self@.take(offset_in(self@, k as int)),
            r.1@ == self@.skip(offset_in(self@, k as int)),
    {
        proof {
            self.lemma_wf();
        }
        let off = self.offset_of(k);
        let mut left: Vec<char> = Vec::new();
        copy_range(&self.content, 0, off, &mut left);
        let mut right: Vec<char> = Vec::new();
        copy_range(&self.content, off, self.content.len(), &mut right);
        assert(left@ =~= self@.take(off as int));
        assert(right@ =~= self@.skip(off as int));
        (Row::from_text(left), Row::from_text(right))
    }

    /// Puts `other`'s text at the end of this row.
    pub fn append(&mut self, other: &Row) -> (r: Result<(), RowError>)
        requires
            old(self).wf(),
            other.wf(),
        ensures
            final(self).wf(),
            r is Ok <==> old(self)@.len() + other@.len() <= MAX_ROW_CHARS,
            r is Err ==> r == Err::<(), RowError>(RowError::Full),
            r is Ok ==> final(self)@ == old(self)@ + other@,
            r is Err ==> final(self)@ == old(self)@,
    {
        proof {
            self.lemma_wf();
            other.lemma_wf();
        }
        if other.content.len() > MAX_ROW_CHARS - self.content.len() {
            return Err(RowError::Full);
        }
        let mut text: Vec<char> = Vec::new();
        copy_range(&self.content, 0, self.content.len(), &mut text);
        copy_range(&other.content, 0, other.content.len(), &mut text);
        assert(text@ =~= old(self)@ + other@);
        *self = Row::from_text(text);
        Ok(())
    }

    /// The clusters that lie wholly between display columns `start` and `end`;
    /// a wide cluster that straddles either edge is left out.
    pub fn render(&self, start: usize, end: usize) -> (r: Vec<char>)
        requires
            self.wf(),
        ensures
            r@ == rendered(self@, start as nat, end as nat),
    {
        let ghost gs = grapheme_clusters(self@);
        proof {
            self.lemma_wf();
        }
        let mut out: Vec<char> = Vec::new();
        let mut col: usize = 0;
        let mut i: usize = 0;
        while i < self.graphemes.len()
            invariant
                self.wf(),
                gs == grapheme_clusters(self@),
                gs.len() <= MAX_ROW_CHARS,
                0 <= i <= gs.len(),
                col == columns_before(gs, i as int),
                out@ == render_upto(gs, start as nat, end as nat, i as int),
            decreases gs.len() - i,
        {
            proof {
                lemma_columns_bound(gs, i + 1);
                assert(self.graphemes@[i as int]@ == gs[i as int]);
            }
            let w = self.word_width_index[i];
            if start <= col && col + w <= end {
                let g = &self.graphemes[i];
                copy_range(g, 0, g.len(), &mut out);
                assert(g@.subrange(0, g@.len() as int) =~= gs[i as int]);
            }
            col = col + w;
            i = i + 1;
        }
        out
    }
}

/// Cutting a row at any cursor stop and joining the parts again gives the row back.
pub proof fn lemma_split_then_append(row: &Row, k: int)
    requires
        row.wf(),
        0 <= k <= stop_count(row@),
    ensures
        row@.take(offset_in(row@, k)) + row@.skip(offset_in(row@, k)) == row@,
        row@.take(offset_in(row@, k)).len() + row@.skip(offset_in(row@, k)).len() <= MAX_ROW_CHARS,
{
    row.lemma_wf();
    lemma_offset_bounds(grapheme_clusters(row@), k, k);
    assert(row@.take(offset_in(row@, k)) + row@.skip(offset_in(row@, k)) =~= row@);
}

} // verus!
