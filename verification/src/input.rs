//! The layout of a return file: one value per line, blank lines ignored.
//!
//! This module finds the lines that carry a value and trims them; reading
//! the numbers themselves is left to the caller.
use vstd::prelude::*;

verus! {

/// `char::is_whitespace`: the Unicode `White_Space` property.
pub open spec fn spec_is_whitespace(c: char) -> bool {
    let u = c as int;
    ||| 0x9 <= u <= 0xD
    ||| u == 0x20
    ||| u == 0x85
    ||| u == 0xA0
    ||| u == 0x1680
    ||| 0x2000 <= u <= 0x200A
    ||| u == 0x2028
    ||| u == 0x2029
    ||| u == 0x202F
    ||| u == 0x205F
    ||| u == 0x3000
}

/// Leading whitespace removed.
pub open spec fn trim_start(s: Seq<char>) -> Seq<char>
    decreases s.len(),
{
    if s.len() > 0 && spec_is_whitespace(s[0]) {
        trim_start(s.drop_first())
    } else {
        s
    }
}

/// Trailing whitespace removed.
pub open spec fn trim_end(s: Seq<char>) -> Seq<char>
    decreases s.len(),
{
    if s.len() > 0 && spec_is_whitespace(s.last()) {
        trim_end(s.drop_last())
    } else {
        s
    }
}

/// `str::trim`.
pub open spec fn trim(s: Seq<char>) -> Seq<char> {
    trim_end(trim_start(s))
}

/// The pieces of `s` between line feeds; there is always at least one.
pub open spec fn split_newlines(s: Seq<char>) -> Seq<Seq<char>>
    decreases s.len(),
{
    if s.len() == 0 {
        seq![Seq::<char>::empty()]
    } else {
        let head = split_newlines(s.drop_last());
        if s.last() == '\n' {
            head.push(Seq::<char>::empty())
        } else {
            head.update(head.len() - 1, head.last().push(s.last()))
        }
    }
}

/// The lines of `s` as `str::lines` gives them, except that a carriage
/// return before a line feed stays on its line (trimming removes it): a final
/// line feed opens no further line.
pub open spec fn text_lines(s: Seq<char>) -> Seq<Seq<char>> {
    let pieces = split_newlines(s);
    if pieces.last().len() == 0 {
        pieces.drop_last()
    } else {
        pieces
    }
}

/// A line that is not blank.
pub open spec fn is_nonblank(entry: (int, Seq<char>)) -> bool {
    entry.1.len() > 0
}

/// Each line numbered from one and trimmed, blank ones left out.
pub open spec fn numbered_nonblank(lines: Seq<Seq<char>>) -> Seq<(int, Seq<char>)> {
    Seq::new(lines.len(), |i: int| (i + 1, trim(lines[i]))).filter(|e: (int, Seq<char>)| is_nonblank(e))
}

/// The lines of a file that carry text: number from one, trimmed text.
pub open spec fn content_lines(s: Seq<char>) -> Seq<(int, Seq<char>)> {
    numbered_nonblank(text_lines(s))
}

/// A nonblank line of a file.
pub struct TextLine {
    /// Position of the line in the file, counting from one.
    pub number: usize,
    /// The line without its leading and trailing whitespace.
    pub text: Vec<char>,
}

impl TextLine {
    /// The line as a plain pair: its number and its text.
    pub open spec fn entry(self) -> (int, Seq<char>) {
        (self.number as int, self.text@)
    }

    /// The line holds one column: no comma separates further fields.
    pub fn is_single_field(&self) -> (r: bool)
        ensures
            r == !self.text@.contains(','),
    {
        let n = self.text.len();
        for i in 0..n
            invariant
                n == self.text@.len(),
                forall|j: int| 0 <= j < i ==> self.text@[j] != ',',
        {
            if self.text[i] == ',' {
                return false;
            }
        }
        true
    }
}

/// Whether a character is whitespace (`char::is_whitespace`).
pub fn is_whitespace(c: char) -> (r: bool)
    ensures
        r == spec_is_whitespace(c),
{
    let u = c as u32;
    (0x9 <= u && u <= 0xD) || u == 0x20 || u == 0x85 || u == 0xA0 || u == 0x1680 || (0x2000 <= u
        && u <= 0x200A) || u == 0x2028 || u == 0x2029 || u == 0x202F || u == 0x205F || u == 0x3000
}

proof fn lemma_trim_start_skip(s: Seq<char>, a: int)
    requires
        0 <= a <= s.len(),
        forall|j: int| 0 <= j < a ==> spec_is_whitespace(#[trigger] s[j]),
        a == s.len() || !spec_is_whitespace(s[a]),
    ensures
        trim_start(s) == s.skip(a),
    decreases a,
{
    if a > 0 {
        let t = s.drop_first();
        assert forall|j: int| 0 <= j < a - 1 implies spec_is_whitespace(#[trigger] t[j]) by {
            assert(t[j] == s[j + 1]);
        }
        lemma_trim_start_skip(t, a - 1);
        assert(t.skip(a - 1) =~= s.skip(a));
    } else {
        assert(s.skip(0) =~= s);
    }
}

proof fn lemma_trim_end_take(s: Seq<char>, b: int)
    requires
        0 <= b <= s.len(),
        forall|j: int| b <= j < s.len() ==> spec_is_whitespace(#[trigger] s[j]),
        b == 0 || !spec_is_whitespace(s[b - 1]),
    ensures
        trim_end(s) == s.take(b),
    decreases s.len() - b,
{
    if b < s.len() {
        let t = s.drop_last();
        assert(spec_is_whitespace(s[s.len() - 1]));
        assert forall|j: int| b <= j < t.len() implies spec_is_whitespace(#[trigger] t[j]) by {
            assert(t[j] == s[j]);
        }
        lemma_trim_end_take(t, b);
        assert(t.take(b) =~= s.take(b));
    } else {
        assert(s.take(b) =~= s);
    }
}

/// The text of a line without leading and trailing whitespace (`str::trim`).
pub fn trimmed(line: &[char]) -> (r: Vec<char>)
    ensures
        r@ == trim(line@),
{
    let n = line.len();
    let mut a: usize = 0;
    while a < n && is_whitespace(line[a])
        invariant
            a <= n,
            n == line@.len(),
            forall|j: int| 0 <= j < a ==> spec_is_whitespace(#[trigger] line@[j]),
        decreases n - a,
    {
        a = a + 1;
    }
    let mut b: usize = n;
    while b > a && is_whitespace(line[b - 1])
        invariant
            a <= b <= n,
            n == line@.len(),
            forall|j: int| b <= j < n ==> spec_is_whitespace(#[trigger] line@[j]),
        decreases b,
    {
        b = b - 1;
    }
    proof {
        lemma_trim_start_skip(line@, a as int);
        let t = line@.skip(a as int);
        assert forall|j: int| b - a <= j < t.len() implies spec_is_whitespace(#[trigger] t[j]) by {
            assert(t[j] == line@[a + j]);
        }
        if b > a {
            assert(t[b - a - 1] == line@[b - 1]);
        }
        lemma_trim_end_take(t, b - a);
        assert(t.take(b - a) =~= line@.subrange(a as int, b as int));
    }
    let mut out: Vec<char> = Vec::new();
    let mut k: usize = a;
    while k < b
        invariant
            a <= k <= b <= n,
            n == line@.len(),
            out@ =~= line@.subrange(a as int, k as int),
        decreases b - k,
    {
        out.push(line[k]);
        k = k + 1;
    }
    out
}

proof fn lemma_numbered_push(lines: Seq<Seq<char>>, line: Seq<char>)
    ensures
        numbered_nonblank(lines.push(line)) == if trim(line).len() > 0 {
            numbered_nonblank(lines).push((lines.len() + 1int, trim(line)))
        } else {
            numbered_nonblank(lines)
        },
{
    let longer = lines.push(line);
    let all_new = Seq::new(longer.len(), |i: int| (i + 1, trim(longer[i])));
    let all_old = Seq::new(lines.len(), |i: int| (i + 1, trim(lines[i])));
    assert(all_new =~= all_old.push((lines.len() + 1int, trim(line))));
    all_old.lemma_filter_push((lines.len() + 1int, trim(line)), |e: (int, Seq<char>)| is_nonblank(e));
}

/// The nonblank lines of a file, numbered from one and trimmed.
pub fn nonblank_lines(contents: &[char]) -> (r: Vec<TextLine>)
    ensures
        r@.map_values(|l: TextLine| l.entry()) == content_lines(contents@),
{
    let n = contents.len();
    let mut out: Vec<TextLine> = Vec::new();
    let mut current: Vec<char> = Vec::new();
    let mut finished: usize = 0;
    proof {
        assert(contents@.take(0) =~= Seq::<char>::empty());
        assert(split_newlines(contents@.take(0)).drop_last() =~= Seq::<Seq<char>>::empty());
        assert(numbered_nonblank(Seq::<Seq<char>>::empty()) =~= Seq::<(int, Seq<char>)>::empty()) by {
            reveal(Seq::filter);
        }
        assert(out@.map_values(|l: TextLine| l.entry()) =~= Seq::<(int, Seq<char>)>::empty());
    }
    for i in 0..n
        invariant
            n == contents@.len(),
            finished + current@.len() <= i,
            split_newlines(contents@.take(i as int)).len() == finished + 1,
            split_newlines(contents@.take(i as int)).last() == current@,
            out@.map_values(|l: TextLine| l.entry()) == numbered_nonblank(
                split_newlines(contents@.take(i as int)).drop_last(),
            ),
    {
        let c = contents[i];
        let ghost before = split_newlines(contents@.take(i as int));
        proof {
            assert(contents@.take(i + 1).drop_last() =~= contents@.take(i as int));
            assert(contents@.take(i + 1).last() == c);
        }
        if c == '\n' {
            let text = trimmed(current.as_slice());
            proof {
                lemma_numbered_push(before.drop_last(), before.last());
                assert(before.drop_last().push(before.last()) =~= before);
                assert(split_newlines(contents@.take(i + 1)).drop_last() =~= before);
            }
            if text.len() > 0 {
                let ghost old_out = out@;
                out.push(TextLine { number: finished + 1, text });
                assert(out@.map_values(|l: TextLine| l.entry()) =~= old_out.map_values(
                    |l: TextLine| l.entry(),
                ).push((finished + 1, trim(before.last()))));
            }
            finished = finished + 1;
            current = Vec::new();
            assert(current@ =~= Seq::<char>::empty());
        } else {
            current.push(c);
            proof {
                assert(split_newlines(contents@.take(i + 1)).drop_last() =~= before.drop_last());
            }
        }
    }
    let ghost pieces = split_newlines(contents@.take(n as int));
    proof {
        assert(contents@.take(n as int) =~= contents@);
    }
    if current.len() > 0 {
        let text = trimmed(current.as_slice());
        proof {
            lemma_numbered_push(pieces.drop_last(), pieces.last());
            assert(pieces.drop_last().push(pieces.last()) =~= pieces);
        }
        if text.len() > 0 {
            let ghost old_out = out@;
            out.push(TextLine { number: finished + 1, text });
            assert(out@.map_values(|l: TextLine| l.entry()) =~= old_out.map_values(
                |l: TextLine| l.entry(),
            ).push((finished + 1, trim(pieces.last()))));
        }
    }
    out
}

} // verus!
