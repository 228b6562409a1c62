use crate::position::{before, Position, SearchDirection};
use crate::row::{
    column_in, matches_at, offset_in, stop_count, with_char, without_cluster, Row, RowError,
    MAX_ROW_CHARS,
};
use vstd::prelude::*;

verus! {

/// The text has no line break in it.
pub open spec fn no_newline(s: Seq<char>) -> bool {
    forall|i: int| 0 <= i < s.len() ==> s[i] != '\n'
}

/// Lines joined with one `'\n'` between each two.
pub open spec fn join_lines(ls: Seq<Seq<char>>) -> Seq<char>
    decreases ls.len(),
{
    if ls.len() == 0 {
        Seq::empty()
    } else if ls.len() == 1 {
        ls[0]
    } else {
        join_lines(ls.drop_last()) + seq!['\n'] + ls.last()
    }
}

/// `query` stands in line `y` from cursor stop `x` on.
pub open spec fn hit(ls: Seq<Seq<char>>, query: Seq<char>, y: int, x: int) -> bool {
    0 <= y < ls.len() && matches_at(ls[y], query, x)
}

/// Where a search from `(ay, ax)` in `direction` may land: after the start going
/// forward, before it going backward.
pub open spec fn in_scope(direction: SearchDirection, ay: int, ax: int, y: int, x: int) -> bool {
    match direction {
        SearchDirection::Forward => before(ay, ax, y, x),
        SearchDirection::Backward => before(y, x, ay, ax),
    }
}

/// `(y, x)` is the match that a search from `(ay, ax)` finds: a match in scope
/// with no other match in scope nearer to the start.
pub open spec fn nearest_hit(
    ls: Seq<Seq<char>>,
    query: Seq<char>,
    direction: SearchDirection,
    ay: int,
    ax: int,
    y: int,
    x: int,
) -> bool {
    &&& hit(ls, query, y, x)
    &&& in_scope(direction, ay, ax, y, x)
    &&& forall|y2: int, x2: int|
        #![trigger hit(ls, query, y2, x2)]
        hit(ls, query, y2, x2) && in_scope(direction, ay, ax, y2, x2) ==> !in_scope(
            direction,
            y2,
            x2,
            y,
            x,
        )
}

/// The rows of a text buffer, with the file it belongs to and whether it has
/// changed since it was loaded or saved.
pub struct Document {
    rows: Vec<Row>,
    file_name: Option<Vec<char>>,
    dirty: bool,
}

impl Default for Document {
    fn default() -> (r: Document)
        ensures
            r.wf(),
            r.lines() == Seq::<Seq<char>>::empty(),
            !r.dirty(),
            r.name() == None::<Vec<char>>,
    {
        let r = Document { rows: Vec::new(), file_name: None, dirty: false };
        assert(r.lines() =~= Seq::<Seq<char>>::empty());
        r
    }
}

proof fn lemma_join_push(ls: Seq<Seq<char>>, l: Seq<char>)
    requires
        ls.len() > 0,
    ensures
        join_lines(ls.push(l)) == join_lines(ls) + seq!['\n'] + l,
{
    assert(ls.push(l).drop_last() =~= ls);
}

/// Number of cursor stops before the end of line `y`; 0 past the last line.
pub open spec fn stops_of(ls: Seq<Seq<char>>, y: int) -> int {
    if 0 <= y < ls.len() {
        stop_count(ls[y])
    } else {
        0
    }
}

proof fn lemma_no_newline_take_skip(s: Seq<char>, n: int)
    requires
        no_newline(s),
        0 <= n <= s.len(),
    ensures
        no_newline(s.take(n)),
        no_newline(s.skip(n)),
{
    assert forall|i: int| 0 <= i < s.skip(n).len() implies s.skip(n)[i] != '\n' by {
        assert(s.skip(n)[i] == s[n + i]);
    }
}

proof fn lemma_no_newline_concat(a: Seq<char>, b: Seq<char>)
    requires
        no_newline(a),
        no_newline(b),
    ensures
        no_newline(a + b),
{
    assert forall|i: int| 0 <= i < (a + b).len() implies (a + b)[i] != '\n' by {
        if i >= a.len() {
            assert((a + b)[i] == b[i - a.len()]);
        }
    }
}

/// The lines after line `y` is cut at cursor stop `x`.
pub open spec fn split_lines(ls: Seq<Seq<char>>, y: int, x: int) -> Seq<Seq<char>> {
    ls.take(y) + seq![ls[y].take(offset_in(ls[y], x)), ls[y].skip(offset_in(ls[y], x))] + ls.skip(
        y + 1,
    )
}

/// The lines after line `y + 1` is joined onto line `y`.
pub open spec fn joined_lines(ls: Seq<Seq<char>>, y: int) -> Seq<Seq<char>> {
    ls.take(y) + seq![ls[y] + ls[y + 1]] + ls.skip(y + 2)
}

/// No line of `ls` holds a line break.
pub open spec fn lines_ok(ls: Seq<Seq<char>>) -> bool {
    forall|i: int| 0 <= i < ls.len() ==> no_newline(#[trigger] ls[i])
}

proof fn lemma_join_last(ls: Seq<Seq<char>>)
    requires
        ls.len() > 1,
    ensures
        join_lines(ls) == join_lines(ls.drop_last()) + seq!['\n'] + ls.last(),
        join_lines(ls).len() == join_lines(ls.drop_last()).len() + 1 + ls.last().len(),
{
}

/// The rows that a text splits into at each `'\n'`; the text after the last
/// `'\n'` is a row too, so there is always at least one.
pub open spec fn lines_of(t: Seq<char>) -> Seq<Seq<char>>
    decreases t.len(),
{
    if t.len() == 0 {
        seq![Seq::empty()]
    } else {
        let prev = lines_of(t.drop_last());
        if t.last() == '\n' {
            prev.push(Seq::empty())
        } else {
            prev.update(prev.len() - 1, prev.last().push(t.last()))
        }
    }
}

/// Saving a document straight after opening it writes the very text it was
/// opened from, no line break added at the end or dropped: `from_text` makes
/// the rows `lines_of(text)`, and `to_text` joins them back to `text`.
pub proof fn lemma_open_then_save(text: Seq<char>)
    ensures
        join_lines(lines_of(text)) == text,
        lines_of(text).len() >= 1,
        lines_ok(lines_of(text)),
    decreases text.len(),
{
    if text.len() > 0 {
        let t0 = text.drop_last();
        let c = text.last();
        lemma_open_then_save(t0);
        let prev = lines_of(t0);
        assert(text =~= t0.push(c));
        if c == '\n' {
            lemma_join_push(prev, Seq::empty());
            assert(join_lines(prev.push(Seq::empty())) =~= text);
            assert forall|i: int| 0 <= i < prev.push(Seq::empty()).len() implies no_newline(
                #[trigger] prev.push(Seq::empty())[i],
            ) by {
                if i < prev.len() {
                    assert(prev.push(Seq::empty())[i] == prev[i]);
                }
            }
        } else {
            let n = prev.len() - 1;
            let l = prev.last().push(c);
            let upd = prev.update(n, l);
            assert(no_newline(prev[n]));
            if prev.len() == 1 {
                assert(join_lines(upd) =~= text);
            } else {
                assert(upd.drop_last() =~= prev.drop_last());
                assert(join_lines(upd) =~= text);
            }
            assert forall|i: int| 0 <= i < upd.len() implies no_newline(#[trigger] upd[i]) by {
                if i < n {
                    assert(upd[i] == prev[i]);
                } else {
                    assert forall|j: int| 0 <= j < l.len() implies l[j] != '\n' by {
                        if j < prev[n].len() {
                            assert(l[j] == prev[n][j]);
                        }
                    }
                }
            }
        }
    }
}

/// Opening a saved document gives back the rows that were saved: rows without
/// line breaks, joined by `to_text`, split by `from_text` into the same rows.
pub proof fn lemma_save_then_open(ls: Seq<Seq<char>>)
    requires
        ls.len() >= 1,
        lines_ok(ls),
    ensures
        lines_of(join_lines(ls)) == ls,
{
    lemma_open_then_save(join_lines(ls));
    lemma_same_text_same_lines(lines_of(join_lines(ls)), ls);
}

/// Two sequences of rows without line breaks that join to the same text are
/// the same rows.
proof fn lemma_same_text_same_lines(a: Seq<Seq<char>>, b: Seq<Seq<char>>)
    requires
        a.len() >= 1,
        b.len() >= 1,
        lines_ok(a),
        lines_ok(b),
        join_lines(a) == join_lines(b),
    ensures
        a == b,
    decreases a.len() + b.len(),
{
    if a.len() == 1 && b.len() == 1 {
        assert(a =~= b);
    } else if a.len() == 1 {
        lemma_join_last(b);
        let p = join_lines(b.drop_last()).len() as int;
        assert(join_lines(b)[p] == '\n');
        assert(no_newline(a[0]));
        assert(join_lines(a)[p] == a[0][p]);
    } else if b.len() == 1 {
        lemma_join_last(a);
        let p = join_lines(a.drop_last()).len() as int;
        assert(join_lines(a)[p] == '\n');
        assert(no_newline(b[0]));
        assert(join_lines(b)[p] == b[0][p]);
    } else {
        lemma_join_last(a);
        lemma_join_last(b);
        let ta = join_lines(a.drop_last());
        let tb = join_lines(b.drop_last());
        let la = a.last().len() as int;
        let lb = b.last().len() as int;
        let t = join_lines(a);
        assert(no_newline(a.last()) && no_newline(b.last())) by {
            assert(a.last() == a[a.len() - 1]);
            assert(b.last() == b[b.len() - 1]);
        }
        if la < lb {
            let p = ta.len() as int;
            assert(t[p] == '\n');
            assert(t[p] == b.last()[p - tb.len() - 1]);
        } else if lb < la {
            let p = tb.len() as int;
            assert(t[p] == '\n');
            assert(t[p] == a.last()[p - ta.len() - 1]);
        } else {
            assert(ta =~= t.take(ta.len() as int));
            assert(tb =~= t.take(tb.len() as int));
            assert(a.last() =~= t.skip(ta.len() as int + 1));
            assert(b.last() =~= t.skip(tb.len() as int + 1));
            assert(lines_ok(a.drop_last()) && lines_ok(b.drop_last())) by {
                assert forall|i: int| 0 <= i < a.drop_last().len() implies no_newline(
                    #[trigger] a.drop_last()[i],
                ) by {
                    assert(a.drop_last()[i] == a[i]);
                }
                assert forall|i: int| 0 <= i < b.drop_last().len() implies no_newline(
                    #[trigger] b.drop_last()[i],
                ) by {
                    assert(b.drop_last()[i] == b[i]);
                }
            }
            lemma_same_text_same_lines(a.drop_last(), b.drop_last());
            assert(a =~= a.drop_last().push(a.last()));
            assert(b =~= b.drop_last().push(b.last()));
        }
    }
}

impl Document {
    /// The text of each row, top to bottom.
    pub closed spec fn lines(&self) -> Seq<Seq<char>> {
        self.rows@.map_values(|r: Row| r@)
    }

    /// The buffer changed since it was opened or saved.
    pub closed spec fn dirty(&self) -> bool {
        self.dirty
    }

    /// The file the buffer belongs to.
    pub closed spec fn name(&self) -> Option<Vec<char>> {
        self.file_name
    }

    pub fn file_name(&self) -> (r: &Option<Vec<char>>)
        ensures
            *r == self.name(),
    {
        &self.file_name
    }

    /// Gives the buffer a file to be saved to.
    pub fn set_file_name(&mut self, name: Vec<char>)
        requires
            old(self).wf(),
        ensures
            final(self).wf(),
            final(self).name() == Some(name),
            final(self).lines() == old(self).lines(),
            final(self).dirty() == old(self).dirty(),
    {
        self.file_name = Some(name);
    }

    /// Each row is well formed and holds no line break.
    pub closed spec fn wf(&self) -> bool {
        forall|y: int|
            0 <= y < self.rows@.len() ==> (#[trigger] self.rows@[y]).wf() && no_newline(
                self.rows@[y]@,
            )
    }

    /// Splits `text` into rows at each `'\n'`. The text after the last `'\n'`
    /// is a row too, empty when the text ends with a line break, so there is
    /// always at least one row.
    pub fn from_text(file_name: Option<Vec<char>>, text: &Vec<char>) -> (r: Document)
        requires
            text@.len() <= MAX_ROW_CHARS,
        ensures
            r.wf(),
            r.lines() == lines_of(text@),
            r.lines().len() >= 1,
            join_lines(r.lines()) == text@,
            !r.dirty(),
            r.name() == file_name,
    {
        let mut rows: Vec<Row> = Vec::new();
        let mut cur: Vec<char> = Vec::new();
        let mut i: usize = 0;
        while i < text.len()
            invariant
                0 <= i <= text@.len() <= MAX_ROW_CHARS,
                cur@.len() <= i,
                no_newline(cur@),
                forall|y: int|
                    0 <= y < rows@.len() ==> (#[trigger] rows@[y]).wf() && no_newline(
                        rows@[y]@,
                    ),
                join_lines(rows@.map_values(|r: Row| r@).push(cur@)) == text@.take(i as int),
                rows@.map_values(|r: Row| r@).push(cur@) == lines_of(text@.take(i as int)),
            decreases text@.len() - i,
        {
            let c = text[i];
            let ghost ls = rows@.map_values(|r: Row| r@);
            assert(text@.take(i + 1).drop_last() =~= text@.take(i as int));
            if c == '\n' {
                let row = Row::from_text(cur);
                rows.push(row);
                cur = Vec::new();
                proof {
                    let ls2 = rows@.map_values(|r: Row| r@);
                    assert(ls2 =~= ls.push(row@));
                    lemma_join_push(ls2, cur@);
                    assert(text@.take(i + 1) =~= text@.take(i as int) + seq!['\n']);
                    assert(join_lines(ls2.push(cur@)) =~= text@.take(i + 1));
                    assert(ls2.push(cur@) =~= lines_of(text@.take(i + 1)));
                }
            } else {
                let ghost old_cur = cur@;
                cur.push(c);
                proof {
                    assert(text@.take(i + 1) =~= text@.take(i as int).push(c));
                    if ls.len() == 0 {
                        assert(ls.push(old_cur) =~= seq![old_cur]);
                        assert(ls.push(cur@) =~= seq![cur@]);
                    } else {
                        lemma_join_push(ls, old_cur);
                        lemma_join_push(ls, cur@);
                    }
                    assert(join_lines(ls.push(cur@)) =~= text@.take(i + 1));
                    assert(ls.push(old_cur).update(ls.len() as int, cur@) =~= ls.push(cur@));
                    assert(ls.push(cur@) =~= lines_of(text@.take(i + 1)));
                }
            }
            i = i + 1;
        }
        let row = Row::from_text(cur);
        let ghost ls = rows@.map_values(|r: Row| r@);
        rows.push(row);
        let r = Document { rows, file_name, dirty: false };
        assert(r.lines() =~= ls.push(row@));
        assert(text@.take(text@.len() as int) =~= text@);
        assert(text@.take(text@.len() as int) =~= text@);
        r
    }

    /// The rows joined with `'\n'`: the text that `from_text` reads back unchanged.
    pub fn to_text(&self) -> (r: Vec<char>)
        requires
            self.wf(),
        ensures
            r@ == join_lines(self.lines()),
    {
        let mut out: Vec<char> = Vec::new();
        let mut y: usize = 0;
        while y < self.rows.len()
            invariant
                self.wf(),
                0 <= y <= self.rows@.len(),
                out@ == join_lines(self.lines().take(y as int)),
            decreases self.rows@.len() - y,
        {
            let ghost before_out = out@;
            if y > 0 {
                out.push('\n');
            }
            let line = self.rows[y].content();
            let mut i: usize = 0;
            let ghost head = out@;
            while i < line.len()
                invariant
                    0 <= i <= line@.len(),
                    out@ == head + line@.take(i as int),
                decreases line@.len() - i,
            {
                out.push(line[i]);
                assert(line@.take(i + 1) =~= line@.take(i as int).push(line@[i as int]));
                i = i + 1;
            }
            proof {
                let ls = self.lines();
                assert(line@.take(line@.len() as int) =~= line@);
                assert(ls.take(y + 1) =~= ls.take(y as int).push(ls[y as int]));
                if y == 0 {
                    assert(ls.take(1) =~= seq![ls[0]]);
                    assert(out@ =~= join_lines(ls.take(1)));
                } else {
                    lemma_join_push(ls.take(y as int), ls[y as int]);
                    assert(out@ =~= join_lines(ls.take(y + 1)));
                }
            }
            y = y + 1;
        }
        assert(self.lines().take(self.rows@.len() as int) =~= self.lines());
        out
    }

    /// Number of rows.
    pub fn len(&self) -> (r: usize)
        ensures
            r == self.lines().len(),
    {
        self.rows.len()
    }

    pub fn is_empty(&self) -> (r: bool)
        ensures
            r == (self.lines().len() == 0),
    {
        self.rows.len() == 0
    }

    pub fn is_dirty(&self) -> (r: bool)
        ensures
            r == self.dirty(),
    {
        self.dirty
    }

    /// Records that the buffer was written out.
    pub fn mark_saved(&mut self)
        requires
            old(self).wf(),
        ensures
            final(self).wf(),
            !final(self).dirty(),
            final(self).lines() == old(self).lines(),
            final(self).name() == old(self).name(),
    {
        self.dirty = false;
    }

    /// Row `y`, if there is one.
    pub fn row(&self, y: usize) -> (r: Option<&Row>)
        requires
            self.wf(),
        ensures
            y < self.lines().len() <==> r is Some,
            r matches Some(row) ==> row.wf() && row@ == self.lines()[y as int] && no_newline(
                row@,
            ),
    {
        if y < self.rows.len() {
            Some(&self.rows[y])
        } else {
            None
        }
    }

    /// Searches for `query` from `at` in `direction`, without wrapping round.
    /// Going forward the start itself is passed over, so that a repeated search
    /// moves on; going backward only matches that begin before the start count.
    pub fn find(&self, query: &Vec<char>, at: &Position, direction: SearchDirection) -> (r: Option<
        Position,
    >)
        requires
            self.wf(),
        ensures
            r matches Some(p) ==> nearest_hit(
                self.lines(),
                query@,
                direction,
                at.y as int,
                at.x_word_index as int,
                p.y as int,
                p.x_word_index as int,
            ) && p.x == column_in(self.lines()[p.y as int], p.x_word_index as int),
            r is None ==> forall|y: int, x: int|
                #![trigger hit(self.lines(), query@, y, x)]
                hit(self.lines(), query@, y, x) ==> !in_scope(
                    direction,
                    at.y as int,
                    at.x_word_index as int,
                    y,
                    x,
                ),
    {
        let ghost ls = self.lines();
        let len = self.rows.len();
        match direction {
            SearchDirection::Forward => {
                let mut y = at.y;
                while y < len
                    invariant
                        self.wf(),
                        ls == self.lines(),
                        len == ls.len(),
                        at.y <= y,
                        direction == SearchDirection::Forward,
                        forall|y2: int, x2: int|
                            #![trigger hit(ls, query@, y2, x2)]
                            hit(ls, query@, y2, x2) && before(
                                at.y as int,
                                at.x_word_index as int,
                                y2,
                                x2,
                            ) ==> y2 >= y,
                    decreases len - y,
                {
                    let row = &self.rows[y];
                    assert(row@ == ls[y as int]);
                    proof {
                        row.lemma_wf();
                    }
                    let n = row.grapheme_count();
                    let from = if y == at.y {
                        if at.x_word_index >= n {
                            n + 1
                        } else {
                            at.x_word_index + 1
                        }
                    } else {
                        0
                    };
                    match row.find_from(query, from) {
                        Some(x) => {
                            proof {
                                assert(hit(ls, query@, y as int, x as int));
                                assert forall|y2: int, x2: int|
                                    hit(ls, query@, y2, x2) && before(
                                        at.y as int,
                                        at.x_word_index as int,
                                        y2,
                                        x2,
                                    ) implies !before(y2, x2, y as int, x as int) by {
                                    if y2 == y && x2 < x {
                                        assert(matches_at(row@, query@, x2));
                                        assert(x2 >= from);
                                    }
                                }
                            }
                            let col = row.word_index_to_column(x);
                            return Some(Position { x: col, x_word_index: x, y });
                        },
                        None => {},
                    }
                    y = y + 1;
                }
                None
            },
            SearchDirection::Backward => {
                let mut y = if at.y >= len {
                    len
                } else {
                    at.y + 1
                };
                while y > 0
                    invariant
                        self.wf(),
                        ls == self.lines(),
                        len == ls.len(),
                        y <= len,
                        y <= at.y + 1,
                        direction == SearchDirection::Backward,
                        forall|y2: int, x2: int|
                            #![trigger hit(ls, query@, y2, x2)]
                            hit(ls, query@, y2, x2) && before(
                                y2,
                                x2,
                                at.y as int,
                                at.x_word_index as int,
                            ) ==> y2 < y,
                    decreases y,
                {
                    y = y - 1;
                    let row = &self.rows[y];
                    assert(row@ == ls[y as int]);
                    proof {
                        row.lemma_wf();
                    }
                    let limit = if y == at.y {
                        at.x_word_index
                    } else {
                        row.grapheme_count() + 1
                    };
                    match row.rfind_before(query, limit) {
                        Some(x) => {
                            proof {
                                assert(hit(ls, query@, y as int, x as int));
                                assert forall|y2: int, x2: int|
                                    hit(ls, query@, y2, x2) && before(
                                        y2,
                                        x2,
                                        at.y as int,
                                        at.x_word_index as int,
                                    ) implies !before(y as int, x as int, y2, x2) by {
                                    if y2 == y && x2 > x {
                                        assert(matches_at(row@, query@, x2));
                                        assert(x2 < limit);
                                    }
                                }
                            }
                            let col = row.word_index_to_column(x);
                            return Some(Position { x: col, x_word_index: x, y });
                        },
                        None => {},
                    }
                }
                None
            },
        }
    }

    /// Cuts row `at.y` in two at cursor stop `at.x_word_index`; the second part
    /// becomes the next row. At the row past the last, an empty row is added.
    pub fn insert_newline(&mut self, at: &Position) -> (r: Result<(), RowError>)
        requires
            old(self).wf(),
        ensures
            final(self).wf(),
            final(self).dirty(),
            final(self).name() == old(self).name(),
            r is Err <==> at.y > old(self).lines().len() || at.x_word_index > stops_of(
                old(self).lines(),
                at.y as int,
            ),
            r is Err ==> r == Err::<(), RowError>(RowError::OutOfRange) && final(self).lines()
                == old(self).lines(),
            r is Ok && at.y == old(self).lines().len() ==> final(self).lines() == old(
                self,
            ).lines().push(Seq::empty()),
            r is Ok && at.y < old(self).lines().len() ==> final(self).lines() == split_lines(
                old(self).lines(),
                at.y as int,
                at.x_word_index as int,
            ),
    {
        self.dirty = true;
        let ghost ls = self.lines();
        let len = self.rows.len();
        if at.y > len {
            return Err(RowError::OutOfRange);
        }
        if at.y == len {
            if at.x_word_index > 0 {
                return Err(RowError::OutOfRange);
            }
            let row = Row::from_text(Vec::new());
            self.rows.push(row);
            assert(self.lines() =~= ls.push(Seq::empty()));
            return Ok(());
        }
        let y = at.y;
        let x = at.x_word_index;
        assert(self.rows@[y as int]@ == ls[y as int]);
        if x > self.rows[y].grapheme_count() {
            return Err(RowError::OutOfRange);
        }
        let (left, right) = self.rows[y].split_at(x);
        proof {
            let old_row = self.rows@[y as int];
            old_row.lemma_wf();
            crate::row::lemma_offset_bounds(
                crate::row::grapheme_clusters(old_row@),
                x as int,
                x as int,
            );
            lemma_no_newline_take_skip(old_row@, offset_in(old_row@, x as int));
        }
        self.rows.remove(y);
        self.rows.insert(y, right);
        self.rows.insert(y, left);
        assert(self.lines() =~= split_lines(ls, y as int, x as int));
        Ok(())
    }

    /// Types `c` at `at`: a line break cuts the row as `insert_newline` does; any
    /// other character goes in before the cursor stop. At the row past the last a
    /// new row is made for it.
    pub fn insert(&mut self, at: &Position, c: char) -> (r: Result<(), RowError>)
        requires
            old(self).wf(),
        ensures
            final(self).wf(),
            final(self).dirty(),
            final(self).name() == old(self).name(),
            r == Err::<(), RowError>(RowError::OutOfRange) <==> at.y > old(self).lines().len()
                || at.x_word_index > stops_of(old(self).lines(), at.y as int),
            r is Err ==> final(self).lines() == old(self).lines(),
            c == '\n' && r is Ok && at.y == old(self).lines().len() ==> final(self).lines()
                == old(self).lines().push(Seq::empty()),
            c == '\n' && r is Ok && at.y < old(self).lines().len() ==> final(self).lines()
                == split_lines(old(self).lines(), at.y as int, at.x_word_index as int),
            c != '\n' ==> (r == Err::<(), RowError>(RowError::Full) <==> at.y < old(
                self,
            ).lines().len() && at.x_word_index <= stops_of(old(self).lines(), at.y as int)
                && old(self).lines()[at.y as int].len() == MAX_ROW_CHARS),
            c == '\n' ==> r != Err::<(), RowError>(RowError::Full),
            c != '\n' && r is Ok && at.y == old(self).lines().len() ==> final(self).lines()
                == old(self).lines().push(seq![c]),
            c != '\n' && r is Ok && at.y < old(self).lines().len() ==> final(self).lines()
                == old(self).lines().update(
                at.y as int,
                with_char(old(self).lines()[at.y as int], at.x_word_index as int, c),
            ),
    {
        if c == '\n' {
            return self.insert_newline(at);
        }
        self.dirty = true;
        let ghost ls = self.lines();
        let len = self.rows.len();
        if at.y > len {
            return Err(RowError::OutOfRange);
        }
        if at.y == len {
            if at.x_word_index > 0 {
                return Err(RowError::OutOfRange);
            }
            let mut text: Vec<char> = Vec::new();
            text.push(c);
            let row = Row::from_text(text);
            self.rows.push(row);
            assert(self.lines() =~= ls.push(seq![c]));
            return Ok(());
        }
        let y = at.y;
        assert(self.rows@[y as int]@ == ls[y as int]);
        let mut row = self.rows.remove(y);
        proof {
            row.lemma_wf();
        }
        let r = row.insert_at(at.x_word_index, c);
        proof {
            if r is Ok {
                let s = ls[y as int];
                let off = offset_in(s, at.x_word_index as int);
                crate::row::lemma_offset_bounds(
                    crate::row::grapheme_clusters(s),
                    at.x_word_index as int,
                    at.x_word_index as int,
                );
                lemma_no_newline_take_skip(s, off);
                assert(no_newline(seq![c]));
                lemma_no_newline_concat(s.take(off), seq![c]);
                lemma_no_newline_concat(s.take(off) + seq![c], s.skip(off));
            }
        }
        self.rows.insert(y, row);
        assert(self.lines() =~= ls.update(y as int, row@));
        r
    }

    /// Deletes at `at`: inside a row, the cluster at the cursor stop; at the end
    /// of a row, the line break, so the next row joins this one; at the end of
    /// the last row, or past the last row, nothing.
    pub fn delete(&mut self, at: &Position) -> (r: Result<(), RowError>)
        requires
            old(self).wf(),
        ensures
            final(self).wf(),
            final(self).dirty(),
            final(self).name() == old(self).name(),
            r == Err::<(), RowError>(RowError::OutOfRange) <==> at.y < old(self).lines().len()
                && at.x_word_index > stops_of(old(self).lines(), at.y as int),
            r == Err::<(), RowError>(RowError::Full) <==> at.y + 1 < old(self).lines().len()
                && at.x_word_index == stops_of(old(self).lines(), at.y as int) && old(
                self,
            ).lines()[at.y as int].len() + old(self).lines()[at.y + 1].len() > MAX_ROW_CHARS,
            r is Err ==> final(self).lines() == old(self).lines(),
            at.y >= old(self).lines().len() ==> r is Ok && final(self).lines() == old(
                self,
            ).lines(),
            at.y + 1 == old(self).lines().len() && at.x_word_index == stops_of(
                old(self).lines(),
                at.y as int,
            ) ==> r is Ok && final(self).lines() == old(self).lines(),
            at.y < old(self).lines().len() && at.x_word_index < stops_of(
                old(self).lines(),
                at.y as int,
            ) ==> r is Ok && final(self).lines() == old(self).lines().update(
                at.y as int,
                without_cluster(old(self).lines()[at.y as int], at.x_word_index as int),
            ),
            r is Ok && at.y + 1 < old(self).lines().len() && at.x_word_index == stops_of(
                old(self).lines(),
                at.y as int,
            ) ==> final(self).lines() == joined_lines(old(self).lines(), at.y as int),
    {
        self.dirty = true;
        let ghost ls = self.lines();
        let len = self.rows.len();
        if at.y >= len {
            return Ok(());
        }
        let y = at.y;
        let x = at.x_word_index;
        assert(self.rows@[y as int]@ == ls[y as int]);
        let n = self.rows[y].grapheme_count();
        if x > n {
            return Err(RowError::OutOfRange);
        }
        if x < n {
            let mut row = self.rows.remove(y);
            proof {
                row.lemma_wf();
            }
            let r = row.delete_at(x);
            proof {
                let s = ls[y as int];
                let gs = crate::row::grapheme_clusters(s);
                crate::row::lemma_offset_bounds(gs, x as int, x + 1);
                lemma_no_newline_take_skip(s, offset_in(s, x as int));
                lemma_no_newline_take_skip(s, offset_in(s, x + 1));
                lemma_no_newline_concat(
                    s.take(offset_in(s, x as int)),
                    s.skip(offset_in(s, x + 1)),
                );
            }
            self.rows.insert(y, row);
            assert(self.lines() =~= ls.update(y as int, row@));
            return r;
        }
        if y + 1 == len {
            return Ok(());
        }
        assert(self.rows@[y + 1]@ == ls[y + 1]);
        let next = self.rows.remove(y + 1);
        let mut row = self.rows.remove(y);
        let r = row.append(&next);
        proof {
            lemma_no_newline_concat(ls[y as int], ls[y + 1]);
        }
        match r {
            Ok(()) => {
                self.rows.insert(y, row);
                assert(self.lines() =~= joined_lines(ls, y as int));
            },
            Err(_) => {
                self.rows.insert(y, row);
                self.rows.insert(y + 1, next);
                assert(self.lines() =~= ls);
            },
        }
        r
    }
}

} // verus!
