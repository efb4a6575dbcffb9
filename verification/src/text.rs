//! Character-level reading of the input: white space, lines, trimming,
//! white-space separated tokens and prefixes.

use vstd::prelude::*;

verus! {

/// White space: the code points that Unicode marks `White_Space`.
pub open spec fn is_space(c: char) -> bool {
    ||| c == ' '
    ||| ('\t' <= c && c <= '\r')
    ||| c == '\u{85}'
    ||| c == '\u{A0}'
    ||| c == '\u{1680}'
    ||| ('\u{2000}' <= c && c <= '\u{200A}')
    ||| c == '\u{2028}'
    ||| c == '\u{2029}'
    ||| c == '\u{202F}'
    ||| c == '\u{205F}'
    ||| c == '\u{3000}'
}

pub fn char_is_space(c: char) -> (r: bool)
    ensures
        r == is_space(c),
{
    c == ' ' || ('\t' <= c && c <= '\r') || c == '\u{85}' || c == '\u{A0}' || c == '\u{1680}' || (
    '\u{2000}' <= c && c <= '\u{200A}') || c == '\u{2028}' || c == '\u{2029}' || c == '\u{202F}'
        || c == '\u{205F}' || c == '\u{3000}'
}

/// The lines of `s` from position `i` on, `cur` being the part of the current
/// line that lies before `i`. A line ends at each `'\n'`; what follows the
/// last `'\n'` is a line only if it is not empty.
pub open spec fn lines_from(s: Seq<char>, i: int, cur: Seq<char>) -> Seq<Seq<char>>
    decreases s.len() - i,
{
    if i < 0 || i >= s.len() {
        if cur.len() > 0 {
            seq![cur]
        } else {
            Seq::empty()
        }
    } else if s[i] == '\n' {
        seq![cur] + lines_from(s, i + 1, Seq::empty())
    } else {
        lines_from(s, i + 1, cur.push(s[i]))
    }
}

/// The lines of a text.
pub open spec fn split_lines(s: Seq<char>) -> Seq<Seq<char>> {
    lines_from(s, 0, Seq::empty())
}

/// The white-space separated tokens of `s` from position `i` on, `cur` being
/// the part of the current token that lies before `i`.
pub open spec fn tokens_from(s: Seq<char>, i: int, cur: Seq<char>) -> Seq<Seq<char>>
    decreases s.len() - i,
{
    let done = if cur.len() > 0 {
        seq![cur]
    } else {
        Seq::empty()
    };
    if i < 0 || i >= s.len() {
        done
    } else if is_space(s[i]) {
        done + tokens_from(s, i + 1, Seq::empty())
    } else {
        tokens_from(s, i + 1, cur.push(s[i]))
    }
}

/// The maximal runs of characters of `s` that hold no white space, in order.
pub open spec fn split_whitespace(s: Seq<char>) -> Seq<Seq<char>> {
    tokens_from(s, 0, Seq::empty())
}

/// `s` without its leading white space.
pub open spec fn trim_start(s: Seq<char>) -> Seq<char>
    decreases s.len(),
{
    if s.len() > 0 && is_space(s[0]) {
        trim_start(s.drop_first())
    } else {
        s
    }
}

/// `s` without its trailing white space.
pub open spec fn trim_end(s: Seq<char>) -> Seq<char>
    decreases s.len(),
{
    if s.len() > 0 && is_space(s.last()) {
        trim_end(s.drop_last())
    } else {
        s
    }
}

/// `s` without leading and trailing white space.
pub open spec fn trim(s: Seq<char>) -> Seq<char> {
    trim_end(trim_start(s))
}

/// The number of characters in all of `lines`.
pub open spec fn total_len(lines: Seq<Seq<char>>) -> nat
    decreases lines.len(),
{
    if lines.len() == 0 {
        0
    } else {
        lines[0].len() + total_len(lines.drop_first())
    }
}

/// The lines of a text hold no more characters than the text.
pub proof fn lemma_lines_total(s: Seq<char>, i: int, cur: Seq<char>)
    requires
        0 <= i <= s.len(),
    ensures
        total_len(lines_from(s, i, cur)) <= cur.len() + s.len() - i,
    decreases s.len() - i,
{
    if i >= s.len() {
        if cur.len() > 0 {
            assert(seq![cur].drop_first() =~= Seq::<Seq<char>>::empty());
            assert(total_len(seq![cur].drop_first()) == 0);
        }
    } else if s[i] == '\n' {
        let rest = lines_from(s, i + 1, Seq::empty());
        lemma_lines_total(s, i + 1, Seq::empty());
        assert((seq![cur] + rest).drop_first() =~= rest);
        assert((seq![cur] + rest)[0] == cur);
    } else {
        lemma_lines_total(s, i + 1, cur.push(s[i]));
    }
}

/// There are no more tokens than characters.
pub proof fn lemma_tokens_count(s: Seq<char>, i: int, cur: Seq<char>)
    requires
        0 <= i <= s.len(),
    ensures
        tokens_from(s, i, cur).len() <= s.len() - i + (if cur.len() > 0 {
            1int
        } else {
            0int
        }),
    decreases s.len() - i,
{
    if i < s.len() {
        if is_space(s[i]) {
            lemma_tokens_count(s, i + 1, Seq::empty());
        } else {
            lemma_tokens_count(s, i + 1, cur.push(s[i]));
        }
    }
}

/// Trimming does not lengthen.
pub proof fn lemma_trim_len(s: Seq<char>)
    ensures
        trim_start(s).len() <= s.len(),
        trim_end(s).len() <= s.len(),
        trim(s).len() <= s.len(),
    decreases s.len(),
{
    if s.len() > 0 {
        lemma_trim_len(s.drop_first());
        lemma_trim_len(s.drop_last());
    }
    lemma_trim_end_len(trim_start(s));
}

proof fn lemma_trim_end_len(s: Seq<char>)
    ensures
        trim_end(s).len() <= s.len(),
    decreases s.len(),
{
    if s.len() > 0 && is_space(s.last()) {
        lemma_trim_end_len(s.drop_last());
    }
}

/// The view of a vector of character vectors.
pub open spec fn rows(v: Seq<Vec<char>>) -> Seq<Seq<char>> {
    v.map_values(|r: Vec<char>| r@)
}

/// The characters of a string slice, in order.
pub fn chars_of(s: &str) -> (r: Vec<char>)
    ensures
        r@ == s@,
{
    let mut out: Vec<char> = Vec::new();
    for c in it: s.chars()
        invariant
            out@ == it.seq().take(it.index() as int),
            it.seq() == s@,
    {
        out.push(c);
        proof {
            assert(out@ =~= it.seq().take(it.index() + 1));
        }
    }
    proof {
        assert(out@ =~= s@);
    }
    out
}

/// Splits a text into its lines.
pub fn lines_of(text: &Vec<char>) -> (r: Vec<Vec<char>>)
    ensures
        rows(r@) == split_lines(text@),
{
    let mut out: Vec<Vec<char>> = Vec::new();
    let mut cur: Vec<char> = Vec::new();
    let mut i: usize = 0;
    while i < text.len()
        invariant
            i <= text.len(),
            split_lines(text@) == rows(out@) + lines_from(text@, i as int, cur@),
        decreases text.len() - i,
    {
        let c = text[i];
        if c == '\n' {
            let ghost before = rows(out@);
            let ghost line = cur@;
            out.push(cur);
            cur = Vec::new();
            proof {
                assert(rows(out@) =~= before + seq![line]);
                assert(cur@ =~= Seq::<char>::empty());
                assert(before + (seq![line] + lines_from(text@, i + 1, Seq::empty()))
                    =~= (before + seq![line]) + lines_from(text@, i + 1, Seq::empty()));
            }
        } else {
            cur.push(c);
        }
        i += 1;
    }
    if cur.len() > 0 {
        let ghost before = rows(out@);
        let ghost line = cur@;
        out.push(cur);
        proof {
            assert(rows(out@) =~= before + seq![line]);
        }
    } else {
        proof {
            assert(rows(out@) + Seq::<Seq<char>>::empty() =~= rows(out@));
        }
    }
    out
}

/// Splits a line into its white-space separated tokens.
pub fn tokens_of(line: &Vec<char>) -> (r: Vec<Vec<char>>)
    ensures
        rows(r@) == split_whitespace(line@),
{
    let mut out: Vec<Vec<char>> = Vec::new();
    let mut cur: Vec<char> = Vec::new();
    let mut i: usize = 0;
    while i < line.len()
        invariant
            i <= line.len(),
            split_whitespace(line@) == rows(out@) + tokens_from(line@, i as int, cur@),
        decreases line.len() - i,
    {
        let c = line[i];
        if char_is_space(c) {
            if cur.len() > 0 {
                let ghost before = rows(out@);
                let ghost token = cur@;
                out.push(cur);
                cur = Vec::new();
                proof {
                    assert(rows(out@) =~= before + seq![token]);
                    assert(cur@ =~= Seq::<char>::empty());
                    assert(before + (seq![token] + tokens_from(line@, i + 1, Seq::empty()))
                        =~= (before + seq![token]) + tokens_from(line@, i + 1, Seq::empty()));
                }
            } else {
                proof {
                    assert(cur@ =~= Seq::<char>::empty());
                    assert(Seq::<Seq<char>>::empty() + tokens_from(line@, i + 1, Seq::empty())
                        =~= tokens_from(line@, i + 1, Seq::empty()));
                }
            }
        } else {
            cur.push(c);
        }
        i += 1;
    }
    if cur.len() > 0 {
        let ghost before = rows(out@);
        let ghost token = cur@;
        out.push(cur);
        proof {
            assert(rows(out@) =~= before + seq![token]);
        }
    } else {
        proof {
            assert(rows(out@) + Seq::<Seq<char>>::empty() =~= rows(out@));
        }
    }
    out
}

/// A copy of `line` without leading and trailing white space.
pub fn trimmed(line: &Vec<char>) -> (r: Vec<char>)
    ensures
        r@ == trim(line@),
{
    let n = line.len();
    let mut a: usize = 0;
    proof {
        assert(line@.subrange(0, n as int) =~= line@);
    }
    while a < n && char_is_space(line[a])
        invariant
            a <= n,
            n == line.len(),
            trim_start(line@) == trim_start(line@.subrange(a as int, n as int)),
        decreases n - a,
    {
        proof {
            assert(line@.subrange(a as int, n as int).drop_first() =~= line@.subrange(
                a + 1,
                n as int,
            ));
        }
        a += 1;
    }
    let mut b: usize = n;
    while b > a && char_is_space(line[b - 1])
        invariant
            a <= b <= n,
            n == line.len(),
            trim_start(line@) == line@.subrange(a as int, n as int),
            trim(line@) == trim_end(line@.subrange(a as int, b as int)),
        decreases b - a,
    {
        proof {
            assert(line@.subrange(a as int, b as int).drop_last() =~= line@.subrange(
                a as int,
                b - 1,
            ));
        }
        b -= 1;
    }
    let mut out: Vec<char> = Vec::new();
    let mut i: usize = a;
    while i < b
        invariant
            a <= i <= b <= n,
            n == line.len(),
            out@ == line@.subrange(a as int, i as int),
        decreases b - i,
    {
        out.push(line[i]);
        proof {
            assert(out@ =~= line@.subrange(a as int, i + 1));
        }
        i += 1;
    }
    out
}

/// Whether `line` begins with the characters of `prefix`.
pub fn starts_with(line: &Vec<char>, prefix: &str) -> (r: bool)
    ensures
        r == prefix@.is_prefix_of(line@),
{
    let n = prefix.unicode_len();
    if line.len() < n {
        return false;
    }
    let mut i: usize = 0;
    while i < n
        invariant
            i <= n,
            n == prefix@.len(),
            n <= line.len(),
            line@.subrange(0, i as int) == prefix@.subrange(0, i as int),
        decreases n - i,
    {
        if line[i] != prefix.get_char(i) {
            proof {
                if prefix@.is_prefix_of(line@) {
                    assert(line@.subrange(0, n as int)[i as int] == prefix@[i as int]);
                }
            }
            return false;
        }
        proof {
            assert(line@.subrange(0, i + 1) =~= line@.subrange(0, i as int).push(line@[i as int]));
            assert(prefix@.subrange(0, i + 1) =~= prefix@.subrange(0, i as int).push(
                prefix@[i as int],
            ));
        }
        i += 1;
    }
    proof {
        assert(prefix@.subrange(0, n as int) =~= prefix@);
    }
    true
}

/// Whether `line` consists of exactly the characters of `word`.
pub fn equals(line: &Vec<char>, word: &str) -> (r: bool)
    ensures
        r == (line@ == word@),
{
    let n = word.unicode_len();
    if line.len() != n {
        return false;
    }
    let r = starts_with(line, word);
    proof {
        if r {
            assert(line@.subrange(0, n as int) =~= line@);
        }
        if line@ == word@ {
            assert(word@.subrange(0, n as int) =~= word@);
        }
    }
    r
}

/// `String::push` appends one character to the end of the string.
pub assume_specification[ String::push ](s: &mut String, c: char)
    ensures
        final(s)@ == old(s)@.push(c),
;

/// The string that holds the characters of `chars`, in order.
pub fn string_of(chars: &Vec<char>) -> (r: String)
    ensures
        r@ == chars@,
{
    let mut out = String::new();
    let mut i: usize = 0;
    while i < chars.len()
        invariant
            i <= chars.len(),
            out@ == chars@.take(i as int),
        decreases chars.len() - i,
    {
        out.push(chars[i]);
        proof {
            assert(out@ =~= chars@.take(i + 1));
        }
        i += 1;
    }
    proof {
        assert(chars@.take(chars.len() as int) =~= chars@);
    }
    out
}

} // verus!
