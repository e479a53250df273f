use vstd::prelude::*;

verus! {

/// `pat` occurs in `hay` starting at index `i`.
pub open spec fn occurs_at(hay: Seq<char>, pat: Seq<char>, i: int) -> bool {
    0 <= i && i + pat.len() <= hay.len() && hay.subrange(i, i + pat.len()) == pat
}

/// The first index at or after `i` where `pat` occurs in `hay`.
pub open spec fn find_from(hay: Seq<char>, pat: Seq<char>, i: int) -> Option<int>
    decreases hay.len() + 1 - i,
{
    if i < 0 || i + pat.len() > hay.len() {
        None
    } else if occurs_at(hay, pat, i) {
        Some(i)
    } else {
        find_from(hay, pat, i + 1)
    }
}

/// The first index where `pat` occurs in `hay`.
pub open spec fn find(hay: Seq<char>, pat: Seq<char>) -> Option<int> {
    find_from(hay, pat, 0)
}

/// The text up to the first occurrence of `stop`, or all of it.
pub open spec fn take_until(s: Seq<char>, stop: char) -> Seq<char> {
    match find(s, seq![stop]) {
        Some(k) => s.take(k),
        None => s,
    }
}

/// What follows the first occurrence of `marker` in `line`, up to the next
/// `stop` character or the end of the line.
pub open spec fn field_after(line: Seq<char>, marker: Seq<char>, stop: char) -> Option<Seq<char>> {
    match find(line, marker) {
        Some(k) => Some(take_until(line.skip(k + marker.len()), stop)),
        None => None,
    }
}

/// What follows the first occurrence of `marker` in `line`, up to the next
/// `stop` character, which must be there.
pub open spec fn field_before(line: Seq<char>, marker: Seq<char>, stop: char) -> Option<Seq<char>> {
    match find(line, marker) {
        Some(k) => {
            let rest = line.skip(k + marker.len());
            match find(rest, seq![stop]) {
                Some(e) => Some(rest.take(e)),
                None => None,
            }
        },
        None => None,
    }
}

/// The pieces of `s` between line feeds: one more than there are line feeds.
pub open spec fn pieces(s: Seq<char>) -> Seq<Seq<char>>
    decreases s.len(),
{
    if s.len() == 0 {
        seq![Seq::empty()]
    } else {
        let p = pieces(s.drop_last());
        if s.last() == '\n' {
            p.push(Seq::empty())
        } else {
            p.update(p.len() - 1, p.last().push(s.last()))
        }
    }
}

/// A line that a line feed ended, without a carriage return just before it.
pub open spec fn strip_cr(p: Seq<char>) -> Seq<char> {
    if p.len() > 0 && p.last() == '\r' {
        p.drop_last()
    } else {
        p
    }
}

/// The lines of `s`: each line ends at a line feed (`\n` or `\r\n`, which is
/// not part of the line) or at the end of the text; a final line feed does
/// not start an empty last line.
pub open spec fn lines(s: Seq<char>) -> Seq<Seq<char>> {
    let p = pieces(s);
    let ended = p.drop_last().map_values(|q: Seq<char>| strip_cr(q));
    if p.last().len() == 0 {
        ended
    } else {
        ended.push(p.last())
    }
}

pub proof fn lemma_find_from_bounds(hay: Seq<char>, pat: Seq<char>, i: int)
    ensures
        find_from(hay, pat, i) matches Some(k) ==> i <= k && occurs_at(hay, pat, k),
    decreases hay.len() + 1 - i,
{
    if !(i < 0 || i + pat.len() > hay.len()) && !occurs_at(hay, pat, i) {
        lemma_find_from_bounds(hay, pat, i + 1);
    }
}

pub proof fn lemma_find_bounds(hay: Seq<char>, pat: Seq<char>)
    ensures
        find(hay, pat) matches Some(k) ==> occurs_at(hay, pat, k),
{
    lemma_find_from_bounds(hay, pat, 0);
}

/// Where the last piece of `s` starts: just after its last line feed.
pub open spec fn last_start(s: Seq<char>) -> int
    decreases s.len(),
{
    if s.len() == 0 {
        0
    } else if s.last() == '\n' {
        s.len() as int
    } else {
        last_start(s.drop_last())
    }
}

pub proof fn lemma_find_from_none(hay: Seq<char>, pat: Seq<char>, i: int, j: int)
    requires
        0 <= i <= j,
        find_from(hay, pat, i) is None,
    ensures
        !occurs_at(hay, pat, j),
    decreases hay.len() + 1 - i,
{
    if i + pat.len() <= hay.len() && i < j {
        lemma_find_from_none(hay, pat, i + 1, j);
    }
}

/// An occurrence inside a stretch of a text is an occurrence in the text.
pub proof fn lemma_occurs_in_subrange(s: Seq<char>, a: int, b: int, pat: Seq<char>, i: int)
    requires
        0 <= a <= b <= s.len(),
        occurs_at(s.subrange(a, b), pat, i),
    ensures
        occurs_at(s, pat, a + i),
{
    assert(s.subrange(a + i, a + i + pat.len()) =~= s.subrange(a, b).subrange(i, i + pat.len()));
}

/// Every piece of `s` is a stretch of `s`; the last one runs to its end.
pub proof fn lemma_pieces_are_stretches(s: Seq<char>)
    ensures
        pieces(s).len() >= 1,
        0 <= last_start(s) <= s.len(),
        pieces(s).last() == s.subrange(last_start(s), s.len() as int),
        forall|k: int|
            0 <= k < pieces(s).len() ==> exists|a: int, b: int|
                0 <= a <= b <= s.len() && #[trigger] pieces(s)[k] == s.subrange(a, b),
    decreases s.len(),
{
    if s.len() == 0 {
        assert(pieces(s)[0] == s.subrange(0, 0));
    } else {
        let t = s.drop_last();
        lemma_pieces_are_stretches(t);
        let pt = pieces(t);
        let ps = pieces(s);
        assert forall|k: int| 0 <= k < pt.len() implies exists|a: int, b: int|
            0 <= a <= b <= s.len() && #[trigger] pt[k] == s.subrange(a, b) by {
            let (a, b) = choose|a: int, b: int| 0 <= a <= b <= t.len() && #[trigger] pt[k] == t.subrange(a, b);
            assert(t.subrange(a, b) =~= s.subrange(a, b));
        }
        if s.last() == '\n' {
            assert(ps.last() =~= s.subrange(s.len() as int, s.len() as int));
            assert forall|k: int| 0 <= k < ps.len() implies exists|a: int, b: int|
                0 <= a <= b <= s.len() && #[trigger] ps[k] == s.subrange(a, b) by {
                if k < pt.len() {
                    assert(ps[k] == pt[k]);
                } else {
                    assert(ps[k] == s.subrange(s.len() as int, s.len() as int));
                }
            }
        } else {
            assert(ps.last() =~= s.subrange(last_start(s), s.len() as int));
            assert forall|k: int| 0 <= k < ps.len() implies exists|a: int, b: int|
                0 <= a <= b <= s.len() && #[trigger] ps[k] == s.subrange(a, b) by {
                if k < pt.len() - 1 {
                    assert(ps[k] == pt[k]);
                } else {
                    assert(ps[k] == s.subrange(last_start(s), s.len() as int));
                }
            }
        }
    }
}

/// Every line of `s` is a stretch of `s`.
pub proof fn lemma_lines_are_stretches(s: Seq<char>, k: int)
    requires
        0 <= k < lines(s).len(),
    ensures
        exists|a: int, b: int| 0 <= a <= b <= s.len() && lines(s)[k] == s.subrange(a, b),
{
    lemma_pieces_are_stretches(s);
    let p = pieces(s);
    if k < p.len() - 1 {
        let (a, b) = choose|a: int, b: int| 0 <= a <= b <= s.len() && #[trigger] p[k] == s.subrange(a, b);
        if p[k].len() > 0 && p[k].last() == '\r' {
            assert(lines(s)[k] =~= s.subrange(a, b - 1));
        } else {
            assert(lines(s)[k] == s.subrange(a, b));
        }
    } else {
        assert(lines(s)[k] == s.subrange(last_start(s), s.len() as int));
    }
}

/// A pattern that a text does not hold occurs in none of its lines.
pub proof fn lemma_absent_from_lines(s: Seq<char>, pat: Seq<char>, k: int)
    requires
        find(s, pat) is None,
        0 <= k < lines(s).len(),
    ensures
        find(lines(s)[k], pat) is None,
{
    let line = lines(s)[k];
    lemma_lines_are_stretches(s, k);
    let (a, b) = choose|a: int, b: int| 0 <= a <= b <= s.len() && line == s.subrange(a, b);
    lemma_find_bounds(line, pat);
    if let Some(i) = find(line, pat) {
        lemma_occurs_in_subrange(s, a, b, pat, i);
        lemma_find_from_none(s, pat, 0, a + i);
    }
}

/// The characters of `s`, in order.
pub fn chars_of(s: &str) -> (r: Vec<char>)
    ensures
        r@ == s@,
{
    let mut r: Vec<char> = Vec::new();
    for c in it: s.chars()
        invariant
            r@ == it.seq().take(it.index() as int),
    {
        r.push(c);
    }
    r
}

/// The first index where `pat` occurs in `hay`, if any.
pub fn find_in(hay: &Vec<char>, pat: &Vec<char>) -> (r: Option<usize>)
    ensures
        r matches Some(k) ==> find(hay@, pat@) == Some(k as int),
        r is None ==> find(hay@, pat@) is None,
{
    let mut i: usize = 0;
    while i <= hay.len() && pat.len() <= hay.len() - i
        invariant
            i <= hay.len() + 1,
            find(hay@, pat@) == find_from(hay@, pat@, i as int),
        decreases hay.len() + 1 - i,
    {
        let mut j: usize = 0;
        let mut same = true;
        while j < pat.len()
            invariant
                i + pat.len() <= hay.len(),
                j <= pat.len(),
                same <==> forall|t: int| 0 <= t < j ==> hay@[i + t] == pat@[t],
            decreases pat.len() - j,
        {
            if hay[i + j] != pat[j] {
                same = false;
            }
            j = j + 1;
        }
        if same {
            assert(hay@.subrange(i as int, i + pat.len()) =~= pat@);
            return Some(i);
        }
        assert(!occurs_at(hay@, pat@, i as int)) by {
            if occurs_at(hay@, pat@, i as int) {
                let t = choose|t: int| 0 <= t < pat.len() && hay@[i + t] != pat@[t];
                assert(hay@.subrange(i as int, i + pat.len())[t] == hay@[i + t]);
            }
        }
        i = i + 1;
    }
    None
}

/// The characters of `v` from `from` up to `to`.
pub fn slice_of(v: &Vec<char>, from: usize, to: usize) -> (r: Vec<char>)
    requires
        from <= to <= v.len(),
    ensures
        r@ == v@.subrange(from as int, to as int),
{
    let mut r: Vec<char> = Vec::new();
    let mut i: usize = from;
    while i < to
        invariant
            from <= i <= to <= v.len(),
            r@ == v@.subrange(from as int, i as int),
        decreases to - i,
    {
        r.push(v[i]);
        i = i + 1;
        assert(r@ =~= v@.subrange(from as int, i as int));
    }
    r
}

/// What follows the first `marker` in `line`, up to the next `stop`.
pub fn field_after_in(line: &Vec<char>, marker: &Vec<char>, stop: char) -> (r: Option<Vec<char>>)
    ensures
        r matches Some(f) ==> field_after(line@, marker@, stop) == Some(f@),
        r is None ==> field_after(line@, marker@, stop) is None,
{
    match find_in(line, marker) {
        None => None,
        Some(k) => {
            assert(find(line@, marker@) == Some(k as int));
            proof {
                lemma_find_bounds(line@, marker@);
            }
            assert(occurs_at(line@, marker@, k as int));
            assert(k + marker@.len() <= line@.len());
            assert(k + marker.len() <= line.len());
            let rest = slice_of(line, k + marker.len(), line.len());
            assert(rest@ =~= line@.skip(k + marker@.len()));
            let stops = vec![stop];
            assert(stops@ =~= seq![stop]);
            match find_in(&rest, &stops) {
                None => Some(rest),
                Some(e) => {
                    proof {
                        lemma_find_bounds(rest@, stops@);
                    }
                    let f = slice_of(&rest, 0, e);
                    assert(f@ =~= rest@.take(e as int));
                    Some(f)
                },
            }
        },
    }
}

/// What follows the first `marker` in `line`, up to the next `stop`, which
/// must be there.
pub fn field_before_in(line: &Vec<char>, marker: &Vec<char>, stop: char) -> (r: Option<Vec<char>>)
    ensures
        r matches Some(f) ==> field_before(line@, marker@, stop) == Some(f@),
        r is None ==> field_before(line@, marker@, stop) is None,
{
    match find_in(line, marker) {
        None => None,
        Some(k) => {
            assert(find(line@, marker@) == Some(k as int));
            proof {
                lemma_find_bounds(line@, marker@);
            }
            assert(occurs_at(line@, marker@, k as int));
            assert(k + marker@.len() <= line@.len());
            assert(k + marker.len() <= line.len());
            let rest = slice_of(line, k + marker.len(), line.len());
            assert(rest@ =~= line@.skip(k + marker@.len()));
            let stops = vec![stop];
            assert(stops@ =~= seq![stop]);
            match find_in(&rest, &stops) {
                None => None,
                Some(e) => {
                    proof {
                        lemma_find_bounds(rest@, stops@);
                    }
                    let f = slice_of(&rest, 0, e);
                    assert(f@ =~= rest@.take(e as int));
                    Some(f)
                },
            }
        },
    }
}

/// The lines of `s`, as `lines` describes them.
pub fn split_lines(s: &str) -> (r: Vec<Vec<char>>)
    ensures
        r@.len() == lines(s@).len(),
        forall|k: int| 0 <= k < r@.len() ==> r@[k]@ == lines(s@)[k],
{
    let chars = chars_of(s);
    let mut out: Vec<Vec<char>> = Vec::new();
    let mut cur: Vec<char> = Vec::new();
    let ghost mut raw: Seq<Seq<char>> = Seq::empty();
    let mut i: usize = 0;
    assert(chars@.take(0) =~= Seq::<char>::empty());
    while i < chars.len()
        invariant
            chars@ == s@,
            i <= chars.len(),
            pieces(chars@.take(i as int)) == raw.push(cur@),
            out@.len() == raw.len(),
            forall|k: int| 0 <= k < raw.len() ==> out@[k]@ == strip_cr(#[trigger] raw[k]),
        decreases chars.len() - i,
    {
        let c = chars[i];
        assert(chars@.take(i + 1).drop_last() =~= chars@.take(i as int));
        assert(chars@.take(i + 1).last() == c);
        if c == '\n' {
            let ghost piece = cur@;
            let mut line = cur;
            if line.len() > 0 && line[line.len() - 1] == '\r' {
                line.pop();
            }
            assert(line@ == strip_cr(piece)) by {
                if piece.len() > 0 && piece.last() == '\r' {
                    assert(line@ =~= piece.drop_last());
                }
            }
            proof {
                raw = raw.push(piece);
            }
            out.push(line);
            cur = Vec::new();
        } else {
            cur.push(c);
        }
        i = i + 1;
    }
    assert(chars@.take(i as int) =~= s@);
    assert(pieces(s@).drop_last() =~= raw);
    if cur.len() > 0 {
        out.push(cur);
    }
    assert(lines(s@).len() == out@.len());
    out
}

} // verus!
