use vstd::prelude::*;

verus! {

/// Unicode white space, as `char::is_whitespace` and `str::trim` define it.
pub open spec fn is_space(c: char) -> bool {
    ('\u{9}' <= c && c <= '\u{d}') || c == ' ' || c == '\u{85}' || c == '\u{a0}'
        || c == '\u{1680}' || ('\u{2000}' <= c && c <= '\u{200a}') || c == '\u{2028}'
        || c == '\u{2029}' || c == '\u{202f}' || c == '\u{205f}' || c == '\u{3000}'
}

pub fn space(c: char) -> (r: bool)
    ensures
        r == is_space(c),
{
    ('\u{9}' <= c && c <= '\u{d}') || c == ' ' || c == '\u{85}' || c == '\u{a0}'
        || c == '\u{1680}' || ('\u{2000}' <= c && c <= '\u{200a}') || c == '\u{2028}'
        || c == '\u{2029}' || c == '\u{202f}' || c == '\u{205f}' || c == '\u{3000}'
}

/// The physical lines of a text: the pieces between line feeds. A text that
/// ends with a line feed ends with an empty piece.
pub open spec fn physical_lines(t: Seq<char>) -> Seq<Seq<char>>
    decreases t.len(),
{
    if t.len() == 0 {
        seq![Seq::empty()]
    } else {
        let p = physical_lines(t.drop_last());
        if t.last() == '\n' {
            p.push(Seq::empty())
        } else {
            p.update(p.len() - 1, p.last().push(t.last()))
        }
    }
}

/// Where the comment of a line starts: the index of its first `#`, or its
/// length where it has none.
pub open spec fn comment_at(l: Seq<char>) -> nat
    decreases l.len(),
{
    if l.len() == 0 || l[0] == '#' {
        0
    } else {
        1 + comment_at(l.drop_first())
    }
}

/// How many white-space characters a line starts with.
pub open spec fn leading_spaces(l: Seq<char>) -> nat
    decreases l.len(),
{
    if l.len() == 0 || !is_space(l[0]) {
        0
    } else {
        1 + leading_spaces(l.drop_first())
    }
}

/// How many white-space characters a line ends with.
pub open spec fn trailing_spaces(l: Seq<char>) -> nat
    decreases l.len(),
{
    if l.len() == 0 || !is_space(l.last()) {
        0
    } else {
        1 + trailing_spaces(l.drop_last())
    }
}

/// A line without the white space at either end.
pub open spec fn trim(l: Seq<char>) -> Seq<char> {
    let m = l.skip(leading_spaces(l) as int);
    m.take(m.len() - trailing_spaces(m))
}

/// The content of a physical line: the text before its comment, trimmed.
pub open spec fn content(l: Seq<char>) -> Seq<char> {
    trim(l.take(comment_at(l) as int))
}

/// The lines that hold content, each with the 0-based index of the physical
/// line it stands on, in order.
pub open spec fn numbered_contents(ls: Seq<Seq<char>>) -> Seq<(int, Seq<char>)>
    decreases ls.len(),
{
    if ls.len() == 0 {
        Seq::empty()
    } else {
        let p = numbered_contents(ls.drop_last());
        let c = content(ls.last());
        if c.len() > 0 {
            p.push((ls.len() - 1, c))
        } else {
            p
        }
    }
}

/// The logical lines of a text: comments cut, white space trimmed, empty
/// lines left out, each with its 0-based physical line index.
pub open spec fn off_lines(t: Seq<char>) -> Seq<(int, Seq<char>)> {
    numbered_contents(physical_lines(t))
}

/// Splits a line at white space, scanning it from the left: the words
/// finished so far and the word being read.
pub open spec fn scan_words(l: Seq<char>) -> (Seq<Seq<char>>, Seq<char>)
    decreases l.len(),
{
    if l.len() == 0 {
        (Seq::empty(), Seq::empty())
    } else {
        let (done, cur) = scan_words(l.drop_last());
        if !is_space(l.last()) {
            (done, cur.push(l.last()))
        } else if cur.len() > 0 {
            (done.push(cur), Seq::empty())
        } else {
            (done, cur)
        }
    }
}

/// The white-space separated words of a line, as `str::split_whitespace`
/// gives them.
pub open spec fn words(l: Seq<char>) -> Seq<Seq<char>> {
    let (done, cur) = scan_words(l);
    if cur.len() > 0 {
        done.push(cur)
    } else {
        done
    }
}

/// The views of a sequence of character vectors.
pub open spec fn views(v: Seq<Vec<char>>) -> Seq<Seq<char>> {
    v.map_values(|w: Vec<char>| w@)
}

/// A comment is cut from a line whatever it holds: a line followed by `#`
/// and any text has the content of the line alone.
pub proof fn law_comment_is_cut(l: Seq<char>, comment: Seq<char>)
    requires
        forall|i: int| 0 <= i < l.len() ==> l[i] != '#',
    ensures
        content(l + seq!['#'] + comment) == content(l),
{
    lemma_comment_at(l, comment);
    let full = l + seq!['#'] + comment;
    assert(full.take(l.len() as int) =~= l);
    lemma_comment_at(l, Seq::empty());
    assert(l.take(l.len() as int) =~= l);
}

proof fn lemma_comment_at(l: Seq<char>, comment: Seq<char>)
    requires
        forall|i: int| 0 <= i < l.len() ==> l[i] != '#',
    ensures
        comment_at(l + seq!['#'] + comment) == l.len(),
        comment_at(l) == l.len(),
    decreases l.len(),
{
    if l.len() > 0 {
        assert((l + seq!['#'] + comment).drop_first() =~= l.drop_first() + seq!['#'] + comment);
        lemma_comment_at(l.drop_first(), comment);
    } else {
        assert((l + seq!['#'] + comment)[0] == '#');
    }
}

/// A line without content, blank or a comment alone, adds no logical line.
pub proof fn law_empty_line_is_skipped(ls: Seq<Seq<char>>, l: Seq<char>)
    requires
        content(l).len() == 0,
    ensures
        numbered_contents(ls.push(l)) == numbered_contents(ls),
{
    assert(ls.push(l).drop_last() =~= ls);
}

/// The characters of `s`, in order.
pub fn chars_of(s: &str) -> (r: Vec<char>)
    ensures
        r@ == s@,
{
    let mut r: Vec<char> = Vec::new();
    for c in it: s.chars()
        invariant
            r@ == it.history(),
    {
        r.push(c);
    }
    proof {
        assert(r@ =~= s@);
    }
    r
}

/// The content of one physical line.
pub fn line_content(l: &Vec<char>) -> (r: Vec<char>)
    ensures
        r@ == content(l@),
{
    let mut k: usize = 0;
    assert(l@.skip(0) =~= l@);
    while k < l.len() && l[k] != '#'
        invariant
            k <= l.len(),
            comment_at(l@) == k + comment_at(l@.skip(k as int)),
        decreases l.len() - k,
    {
        assert(l@.skip(k as int).drop_first() =~= l@.skip(k as int + 1));
        k = k + 1;
    }
    assert(comment_at(l@.skip(k as int)) == 0);
    let ghost cut = l@.take(k as int);
    let mut a: usize = 0;
    assert(cut.skip(0) =~= cut);
    while a < k && space(l[a])
        invariant
            a <= k <= l.len(),
            cut == l@.take(k as int),
            leading_spaces(cut) == a + leading_spaces(cut.skip(a as int)),
        decreases k - a,
    {
        assert(cut.skip(a as int).drop_first() =~= cut.skip(a as int + 1));
        a = a + 1;
    }
    assert(leading_spaces(cut.skip(a as int)) == 0);
    let ghost m = cut.skip(a as int);
    let mut b: usize = k;
    assert(m.take(k - a) =~= m);
    while b > a && space(l[b - 1])
        invariant
            a <= b <= k <= l.len(),
            cut == l@.take(k as int),
            m == cut.skip(a as int),
            trailing_spaces(m) == (k - b) + trailing_spaces(m.take(b - a)),
        decreases b - a,
    {
        assert(m.take(b - a).drop_last() =~= m.take(b - a - 1));
        b = b - 1;
    }
    assert(trailing_spaces(m.take(b - a)) == 0);
    let mut r: Vec<char> = Vec::new();
    let mut i: usize = a;
    while i < b
        invariant
            a <= i <= b <= k <= l.len(),
            r@ == l@.subrange(a as int, i as int),
        decreases b - i,
    {
        r.push(l[i]);
        i = i + 1;
    }
    assert(r@ =~= trim(cut));
    r
}

/// The words of a line.
pub fn split_words(l: &Vec<char>) -> (r: Vec<Vec<char>>)
    ensures
        views(r@) == words(l@),
{
    let mut done: Vec<Vec<char>> = Vec::new();
    let mut cur: Vec<char> = Vec::new();
    let mut i: usize = 0;
    while i < l.len()
        invariant
            i <= l.len(),
            scan_words(l@.take(i as int)) == (views(done@), cur@),
        decreases l.len() - i,
    {
        let c = l[i];
        proof {
            assert(l@.take(i + 1).drop_last() =~= l@.take(i as int));
        }
        if !space(c) {
            cur.push(c);
        } else if cur.len() > 0 {
            done.push(cur);
            cur = Vec::new();
        }
        proof {
            assert(views(done@) =~= scan_words(l@.take(i + 1)).0);
            assert(cur@ =~= scan_words(l@.take(i + 1)).1);
        }
        i = i + 1;
    }
    assert(l@.take(i as int) =~= l@);
    if cur.len() > 0 {
        done.push(cur);
    }
    assert(views(done@) =~= words(l@));
    done
}

/// The words of `ws` from position `from` on.
pub fn words_from(ws: &Vec<Vec<char>>, from: usize) -> (r: Vec<Vec<char>>)
    requires
        from <= ws.len(),
    ensures
        views(r@) == views(ws@).skip(from as int),
{
    let mut r: Vec<Vec<char>> = Vec::new();
    let mut i: usize = from;
    while i < ws.len()
        invariant
            from <= i <= ws.len(),
            views(r@) == views(ws@).subrange(from as int, i as int),
        decreases ws.len() - i,
    {
        let w = ws[i].clone();
        let ghost before = r@;
        r.push(w);
        proof {
            assert(views(r@) =~= views(before).push(w@));
            assert(views(ws@).subrange(from as int, i + 1) =~= views(ws@).subrange(
                from as int,
                i as int,
            ).push(ws@[i as int]@));
        }
        i = i + 1;
    }
    assert(views(ws@).subrange(from as int, i as int) =~= views(ws@).skip(from as int));
    r
}

/// A tokenized text: its logical lines, and how many of them have been
/// taken.
pub struct OffLines {
    lines: Vec<(usize, Vec<char>)>,
    pos: usize,
}

/// The model of one logical line.
pub open spec fn line_view(p: (usize, Vec<char>)) -> (int, Seq<char>) {
    (p.0 as int, p.1@)
}

impl View for OffLines {
    type V = Seq<(int, Seq<char>)>;

    /// The logical lines not taken yet.
    closed spec fn view(&self) -> Seq<(int, Seq<char>)> {
        self.lines@.skip(self.pos as int).map_values(|p: (usize, Vec<char>)| line_view(p))
    }
}

impl OffLines {
    pub closed spec fn wf(&self) -> bool {
        self.pos <= self.lines.len()
    }

    /// Tokenizes a whole text.
    pub fn new(s: &str) -> (r: OffLines)
        ensures
            r.wf(),
            r@ == off_lines(s@),
    {
        let t = chars_of(s);
        let mut out: Vec<(usize, Vec<char>)> = Vec::new();
        let mut cur: Vec<char> = Vec::new();
        let mut n: usize = 0;
        let mut i: usize = 0;
        let ghost mut done: Seq<Seq<char>> = Seq::empty();
        while i < t.len()
            invariant
                i <= t.len(),
                physical_lines(t@.take(i as int)) == done.push(cur@),
                n == done.len(),
                n <= i,
                out@.map_values(|p: (usize, Vec<char>)| line_view(p)) == numbered_contents(done),
            decreases t.len() - i,
        {
            let c = t[i];
            proof {
                assert(t@.take(i + 1).drop_last() =~= t@.take(i as int));
            }
            if c == '\n' {
                let line = line_content(&cur);
                proof {
                    assert(done.push(cur@).drop_last() =~= done);
                }
                if line.len() > 0 {
                    out.push((n, line));
                }
                proof {
                    assert(out@.map_values(|p: (usize, Vec<char>)| line_view(p)) =~= numbered_contents(
                        done.push(cur@),
                    ));
                    done = done.push(cur@);
                }
                cur = Vec::new();
                n = n + 1;
                proof {
                    assert(physical_lines(t@.take(i + 1)) =~= done.push(cur@));
                }
            } else {
                cur.push(c);
                proof {
                    assert(physical_lines(t@.take(i + 1)) =~= done.push(cur@));
                }
            }
            i = i + 1;
        }
        assert(t@.take(i as int) =~= s@);
        let line = line_content(&cur);
        proof {
            assert(done.push(cur@).drop_last() =~= done);
        }
        if line.len() > 0 {
            out.push((n, line));
        }
        assert(out@.map_values(|p: (usize, Vec<char>)| line_view(p)) =~= off_lines(s@));
        let r = OffLines { lines: out, pos: 0 };
        assert(r.lines@.skip(0) =~= r.lines@);
        r
    }

    /// The next logical line, without taking it.
    pub fn peek(&self) -> (r: Option<&(usize, Vec<char>)>)
        requires
            self.wf(),
        ensures
            self@.len() == 0 ==> r is None,
            self@.len() > 0 ==> r is Some && line_view(*r->0) == self@[0],
    {
        if self.pos < self.lines.len() {
            Some(&self.lines[self.pos])
        } else {
            None
        }
    }

    /// Takes the next logical line.
    pub fn next(&mut self) -> (r: Option<(usize, Vec<char>)>)
        requires
            old(self).wf(),
        ensures
            final(self).wf(),
            old(self)@.len() == 0 ==> r is None && final(self)@ == old(self)@,
            old(self)@.len() > 0 ==> r is Some && line_view(r->0) == old(self)@[0]
                && final(self)@ == old(self)@.drop_first(),
    {
        if self.pos < self.lines.len() {
            let q = &self.lines[self.pos];
            let p = (q.0, q.1.clone());
            self.pos = self.pos + 1;
            proof {
                assert(self@ =~= old(self)@.drop_first());
            }
            Some(p)
        } else {
            None
        }
    }
}

} // verus!
