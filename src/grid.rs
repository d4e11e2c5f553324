use vstd::prelude::*;
use crate::display::{display_width, pad_to_width, padded, StopDisplay, lemma_text_width_add, lemma_text_width_bounds, text_width, texts};
use crate::text::push_char;

verus! {

/// Whether `c` is white space (Unicode's White_Space property).
pub open spec fn is_space(c: char) -> bool {
    let u = c as u32;
    (0x9 <= u && u <= 0xd) || u == 0x20 || u == 0x85 || u == 0xa0 || u == 0x1680 || (0x2000 <= u && u
        <= 0x200a) || u == 0x2028 || u == 0x2029 || u == 0x202f || u == 0x205f || u == 0x3000
}

/// Whether `c` is white space.
pub fn char_is_space(c: char) -> (r: bool)
    ensures
        r == is_space(c),
{
    let u = c as u32;
    (0x9 <= u && u <= 0xd) || u == 0x20 || u == 0x85 || u == 0xa0 || u == 0x1680 || (0x2000 <= u && u
        <= 0x200a) || u == 0x2028 || u == 0x2029 || u == 0x202f || u == 0x205f || u == 0x3000
}

/// Reading `s` left to right: the words completed so far and the word being read.
pub open spec fn split_scan(s: Seq<char>) -> (Seq<Seq<char>>, Seq<char>)
    decreases s.len(),
{
    if s.len() == 0 {
        (Seq::empty(), Seq::empty())
    } else {
        let (done, cur) = split_scan(s.drop_last());
        if is_space(s.last()) {
            if cur.len() > 0 {
                (done.push(cur), Seq::empty())
            } else {
                (done, cur)
            }
        } else {
            (done, cur.push(s.last()))
        }
    }
}

/// The words of `s`: its maximal runs of characters that are not white space.
pub open spec fn words(s: Seq<char>) -> Seq<Seq<char>> {
    let (done, cur) = split_scan(s);
    if cur.len() > 0 {
        done.push(cur)
    } else {
        done
    }
}

proof fn lemma_split_scan_bounds(s: Seq<char>)
    ensures
        split_scan(s).1.len() <= s.len(),
        forall|i: int| 0 <= i < split_scan(s).0.len() ==> (#[trigger] split_scan(s).0[i]).len() <= s.len(),
    decreases s.len(),
{
    if s.len() > 0 {
        lemma_split_scan_bounds(s.drop_last());
    }
}

/// No word is longer than the text it comes from.
pub proof fn lemma_words_bounded(s: Seq<char>)
    ensures
        forall|i: int| 0 <= i < words(s).len() ==> (#[trigger] words(s)[i]).len() <= s.len(),
{
    lemma_split_scan_bounds(s);
}

/// The words of `s`, in order.
pub fn split_words(s: &str) -> (r: Vec<String>)
    ensures
        texts(r@) == words(s@),
{
    let n = s.unicode_len();
    let mut done: Vec<String> = Vec::new();
    let mut cur = String::new();
    let mut i: usize = 0;
    assert(s@.take(0) =~= Seq::<char>::empty());
    assert(texts(done@) =~= Seq::<Seq<char>>::empty());
    while i < n
        invariant
            n == s@.len(),
            i <= n,
            texts(done@) == split_scan(s@.take(i as int)).0,
            cur@ == split_scan(s@.take(i as int)).1,
        decreases n - i,
    {
        assert(s@.take(i as int + 1).drop_last() =~= s@.take(i as int));
        let c = s.get_char(i);
        if char_is_space(c) {
            if cur.unicode_len() > 0 {
                let ghost before = texts(done@);
                let word = cur;
                cur = String::new();
                done.push(word);
                assert(texts(done@) =~= before.push(word@));
            }
        } else {
            push_char(&mut cur, c);
        }
        i = i + 1;
    }
    assert(s@.take(i as int) =~= s@);
    if cur.unicode_len() > 0 {
        let ghost before = texts(done@);
        let ghost last = cur@;
        done.push(cur);
        assert(texts(done@) =~= before.push(last));
    }
    done
}

/// The width of a column of the board.
pub const COLUMN_WIDTH: usize = 32;

/// Filling lines with words in order: the lines completed so far and the line
/// being filled. A word starts an empty line whatever its width; it joins a
/// started line, after a space, while the line's width, one and the word's
/// stay within `width`; else it starts a new line.
pub open spec fn wrap_scan(ws: Seq<Seq<char>>, width: int) -> (Seq<Seq<char>>, Seq<char>)
    decreases ws.len(),
{
    if ws.len() == 0 {
        (Seq::empty(), Seq::empty())
    } else {
        let (lines, cur) = wrap_scan(ws.drop_last(), width);
        let w = ws.last();
        if cur.len() == 0 {
            (lines, w)
        } else if text_width(cur) + 1 + text_width(w) <= width {
            (lines, cur + seq![' '] + w)
        } else {
            (lines.push(cur), w)
        }
    }
}

/// The lines that a stop's name takes in its column, words kept whole.
pub open spec fn wrapped_name(name: Seq<char>) -> Seq<Seq<char>> {
    let (lines, cur) = wrap_scan(words(name), COLUMN_WIDTH as int);
    if cur.len() > 0 {
        lines.push(cur)
    } else {
        lines
    }
}

/// The lines that a stop's name takes in its column, words kept whole.
pub fn wrap_name(name: &str) -> (r: Vec<String>)
    requires
        name@.len() <= isize::MAX,
    ensures
        texts(r@) == wrapped_name(name@),
        forall|i: int| 0 <= i < r@.len() ==> (#[trigger] r@[i])@.len() <= isize::MAX,
{
    let ws = split_words(name);
    proof {
        lemma_words_bounded(name@);
    }
    let mut lines: Vec<String> = Vec::new();
    let mut cur = String::new();
    let mut i: usize = 0;
    assert(texts(ws@).take(0) =~= Seq::<Seq<char>>::empty());
    assert(texts(lines@) =~= Seq::<Seq<char>>::empty());
    while i < ws.len()
        invariant
            texts(ws@) == words(name@),
            name@.len() <= isize::MAX,
            forall|k: int| 0 <= k < words(name@).len() ==> (#[trigger] words(name@)[k]).len() <= name@.len(),
            i <= ws@.len(),
            texts(lines@) == wrap_scan(texts(ws@).take(i as int), COLUMN_WIDTH as int).0,
            cur@ == wrap_scan(texts(ws@).take(i as int), COLUMN_WIDTH as int).1,
            cur@.len() <= isize::MAX,
            forall|k: int| 0 <= k < lines@.len() ==> (#[trigger] lines@[k])@.len() <= isize::MAX,
        decreases ws@.len() - i,
    {
        assert(texts(ws@).take(i as int + 1).drop_last() =~= texts(ws@).take(i as int));
        assert(texts(ws@).take(i as int + 1).last() == ws@[i as int]@);
        assert(ws@[i as int]@ == words(name@)[i as int]);
        let w = &ws[i];
        let ww = display_width(w.as_str());
        let cw = display_width(cur.as_str());
        if cur.unicode_len() == 0 {
            cur = String::from_str(w.as_str());
        } else if cw < COLUMN_WIDTH && ww <= COLUMN_WIDTH - cw - 1 {
            let ghost c0 = cur@;
            push_char(&mut cur, ' ');
            cur.append(w.as_str());
            proof {
                lemma_text_width_add(c0, seq![' ']);
                lemma_text_width_add(c0 + seq![' '], w@);
                assert(seq![' '].drop_last() =~= Seq::<char>::empty());
                assert(seq![' '].last() == ' ');
                assert(text_width(Seq::<char>::empty()) == 0);
                assert(text_width(seq![' ']) == 1);
                assert(cur@ =~= c0 + seq![' '] + w@);
                lemma_text_width_bounds(cur@);
            }
        } else {
            let ghost before = texts(lines@);
            let done = cur;
            cur = String::from_str(w.as_str());
            lines.push(done);
            assert(texts(lines@) =~= before.push(done@));
        }
        i = i + 1;
    }
    assert(texts(ws@).take(i as int) =~= texts(ws@));
    if cur.unicode_len() > 0 {
        let ghost before = texts(lines@);
        let ghost last = cur@;
        lines.push(cur);
        assert(texts(lines@) =~= before.push(last));
    }
    lines
}

/// Line `r` of a column, or nothing past its end.
pub open spec fn cell(col: Seq<Seq<char>>, r: int) -> Seq<char> {
    if 0 <= r < col.len() {
        col[r]
    } else {
        Seq::empty()
    }
}

/// A line of the board: each cell padded to the column width and followed by
/// two spaces.
pub open spec fn grid_row(cells: Seq<Seq<char>>) -> Seq<char>
    decreases cells.len(),
{
    if cells.len() == 0 {
        Seq::empty()
    } else {
        grid_row(cells.drop_last()) + padded(cells.last(), COLUMN_WIDTH as int) + "  "@
    }
}

/// Line `r` across all columns.
pub open spec fn row_at(cols: Seq<Seq<Seq<char>>>, r: int) -> Seq<char> {
    grid_row(Seq::new(cols.len(), |j: int| cell(cols[j], r)))
}

/// The length of the longest column.
pub open spec fn max_height(cols: Seq<Seq<Seq<char>>>) -> int
    decreases cols.len(),
{
    if cols.len() == 0 {
        0
    } else {
        let rest = max_height(cols.drop_last());
        if cols.last().len() > rest {
            cols.last().len() as int
        } else {
            rest
        }
    }
}

/// The wrapped names of the stops, one column each.
pub open spec fn name_columns(stops: Seq<StopDisplay>) -> Seq<Seq<Seq<char>>> {
    Seq::new(stops.len(), |j: int| wrapped_name(stops[j].name@))
}

/// The row texts of the stops, one column each.
pub open spec fn time_columns(stops: Seq<StopDisplay>) -> Seq<Seq<Seq<char>>> {
    Seq::new(stops.len(), |j: int| texts(stops[j].times@))
}

/// The columns held by a list of lists of strings.
pub open spec fn columns(cols: Seq<Vec<String>>) -> Seq<Seq<Seq<char>>> {
    Seq::new(cols.len(), |j: int| texts(cols[j]@))
}

/// The lines of a board: the title; the stops' names, wrapped, side by side
/// (one empty line where there are no stops); their row texts side by side;
/// and an empty line.
pub open spec fn grid_lines(title: Seq<char>, stops: Seq<StopDisplay>) -> Seq<Seq<char>> {
    let names = name_columns(stops);
    let times = time_columns(stops);
    let name_lines = if stops.len() == 0 {
        1
    } else {
        max_height(names)
    };
    seq![title] + Seq::new(name_lines as nat, |r: int| row_at(names, r)) + Seq::new(
        max_height(times) as nat,
        |r: int| row_at(times, r),
    ) + seq![Seq::<char>::empty()]
}

/// Whether every string held by the columns has a length that fits the machine.
pub open spec fn columns_fit(cols: Seq<Vec<String>>) -> bool {
    forall|j: int, k: int| 0 <= j < cols.len() && 0 <= k < cols[j]@.len() ==> (#[trigger] cols[j]@[k])@.len() <= isize::MAX
}

/// Line `r` across all columns.
fn render_row(cols: &Vec<Vec<String>>, r: usize) -> (line: String)
    requires
        columns_fit(cols@),
    ensures
        line@ == row_at(columns(cols@), r as int),
{
    let ghost cells = Seq::new(cols@.len(), |j: int| cell(columns(cols@)[j], r as int));
    let mut line = String::new();
    let mut j: usize = 0;
    assert(cells.take(0) =~= Seq::<Seq<char>>::empty());
    while j < cols.len()
        invariant
            columns_fit(cols@),
            cells == Seq::new(cols@.len(), |j: int| cell(columns(cols@)[j], r as int)),
            j <= cols@.len(),
            line@ == grid_row(cells.take(j as int)),
        decreases cols@.len() - j,
    {
        assert(cells.take(j as int + 1).drop_last() =~= cells.take(j as int));
        assert(cells.take(j as int + 1).last() == cells[j as int]);
        assert(columns(cols@)[j as int] == texts(cols@[j as int]@));
        let col = &cols[j];
        let padded_cell = if r < col.len() {
            assert(cells[j as int] == col@[r as int]@);
            pad_to_width(col[r].as_str(), COLUMN_WIDTH)
        } else {
            assert(cells[j as int] == Seq::<char>::empty());
            let blank = String::new();
            pad_to_width(blank.as_str(), COLUMN_WIDTH)
        };
        line.append(padded_cell.as_str());
        line.append("  ");
        j = j + 1;
    }
    assert(cells.take(j as int) =~= cells);
    line
}

/// The length of the longest column.
fn column_height(cols: &Vec<Vec<String>>) -> (h: usize)
    ensures
        h == max_height(columns(cols@)),
{
    let mut h: usize = 0;
    let mut j: usize = 0;
    assert(columns(cols@).take(0) =~= Seq::<Seq<Seq<char>>>::empty());
    while j < cols.len()
        invariant
            j <= cols@.len(),
            h == max_height(columns(cols@).take(j as int)),
        decreases cols@.len() - j,
    {
        assert(columns(cols@).take(j as int + 1).drop_last() =~= columns(cols@).take(j as int));
        assert(columns(cols@)[j as int].len() == cols@[j as int]@.len());
        if cols[j].len() > h {
            h = cols[j].len();
        }
        j = j + 1;
    }
    assert(columns(cols@).take(j as int) =~= columns(cols@));
    h
}

/// A copy of a list of strings.
fn copy_texts(v: &Vec<String>) -> (r: Vec<String>)
    ensures
        texts(r@) == texts(v@),
{
    let mut r: Vec<String> = Vec::new();
    let mut i: usize = 0;
    while i < v.len()
        invariant
            i <= v@.len(),
            texts(r@) == texts(v@).take(i as int),
        decreases v@.len() - i,
    {
        let ghost before = texts(r@);
        r.push(v[i].clone());
        assert(texts(r@) =~= before.push(v@[i as int]@));
        assert(texts(v@).take(i as int + 1) =~= texts(v@).take(i as int).push(v@[i as int]@));
        i = i + 1;
        assert(texts(r@) =~= texts(v@).take(i as int));
    }
    assert(texts(v@).take(i as int) =~= texts(v@));
    r
}

/// The lines of a board of stops under `title`.
pub fn render_grid(title: &str, stops: &Vec<StopDisplay>) -> (r: Vec<String>)
    requires
        forall|j: int| 0 <= j < stops@.len() ==> (#[trigger] stops@[j]).name@.len() <= isize::MAX,
        forall|j: int, k: int|
            0 <= j < stops@.len() && 0 <= k < stops@[j].times@.len() ==> (#[trigger] stops@[j].times@[k])@.len()
                <= isize::MAX,
    ensures
        texts(r@) == grid_lines(title@, stops@),
{
    let mut names: Vec<Vec<String>> = Vec::new();
    let mut times: Vec<Vec<String>> = Vec::new();
    let mut j: usize = 0;
    while j < stops.len()
        invariant
            forall|j: int| 0 <= j < stops@.len() ==> (#[trigger] stops@[j]).name@.len() <= isize::MAX,
            forall|j: int, k: int|
                0 <= j < stops@.len() && 0 <= k < stops@[j].times@.len() ==> (#[trigger] stops@[j].times@[k])@.len()
                    <= isize::MAX,
            j <= stops@.len(),
            names@.len() == j,
            times@.len() == j,
            columns(names@) == name_columns(stops@).take(j as int),
            columns(times@) == time_columns(stops@).take(j as int),
            columns_fit(names@),
            columns_fit(times@),
        decreases stops@.len() - j,
    {
        let wrapped = wrap_name(stops[j].name.as_str());
        names.push(wrapped);
        let copied = copy_texts(&stops[j].times);
        times.push(copied);
        j = j + 1;
        assert(columns(names@) =~= name_columns(stops@).take(j as int));
        assert(columns(times@) =~= time_columns(stops@).take(j as int));
        assert(columns_fit(times@)) by {
            assert forall|a: int, k: int| 0 <= a < times@.len() && 0 <= k < times@[a]@.len() implies (#[trigger] times@[a]@[k])@.len() <= isize::MAX by {
                assert(columns(times@)[a] == time_columns(stops@)[a]);
                assert(texts(times@[a]@).len() == times@[a]@.len());
                assert(texts(stops@[a].times@).len() == stops@[a].times@.len());
                assert(texts(times@[a]@)[k] == times@[a]@[k]@);
                assert(texts(stops@[a].times@)[k] == stops@[a].times@[k]@);
            }
        }
    }
    assert(columns(names@) =~= name_columns(stops@));
    assert(columns(times@) =~= time_columns(stops@));
    let name_lines: usize = if stops.len() == 0 {
        1
    } else {
        column_height(&names)
    };
    let time_lines = column_height(&times);
    let ghost expected = grid_lines(title@, stops@);
    let mut lines: Vec<String> = Vec::new();
    lines.push(String::from_str(title));
    assert(texts(lines@) =~= seq![title@] + Seq::new(0, |q: int| row_at(name_columns(stops@), q)));
    let mut r: usize = 0;
    while r < name_lines
        invariant
            columns_fit(names@),
            columns(names@) == name_columns(stops@),
            r <= name_lines,
            texts(lines@) == seq![title@] + Seq::new(r as nat, |q: int| row_at(name_columns(stops@), q)),
        decreases name_lines - r,
    {
        let line = render_row(&names, r);
        let ghost before = texts(lines@);
        let ghost lv = line@;
        lines.push(line);
        assert(texts(lines@) =~= before.push(lv));
        r = r + 1;
        assert(texts(lines@) =~= seq![title@] + Seq::new(r as nat, |q: int| row_at(name_columns(stops@), q)));
    }
    let ghost head = texts(lines@);
    let mut t: usize = 0;
    assert(texts(lines@) =~= head + Seq::new(0, |q: int| row_at(time_columns(stops@), q)));
    while t < time_lines
        invariant
            columns_fit(times@),
            columns(times@) == time_columns(stops@),
            t <= time_lines,
            texts(lines@) == head + Seq::new(t as nat, |q: int| row_at(time_columns(stops@), q)),
        decreases time_lines - t,
    {
        let line = render_row(&times, t);
        let ghost before = texts(lines@);
        let ghost lv = line@;
        lines.push(line);
        assert(texts(lines@) =~= before.push(lv));
        t = t + 1;
        assert(texts(lines@) =~= head + Seq::new(t as nat, |q: int| row_at(time_columns(stops@), q)));
    }
    let ghost body = texts(lines@);
    lines.push(String::new());
    assert(texts(lines@) =~= body + seq![Seq::<char>::empty()]);
    assert(texts(lines@) =~= expected);
    lines
}

} // verus!
