//! Trimming, splitting, replacing and joining of texts.

use vstd::prelude::*;
use crate::text::char_texts;
use crate::text::chars_of_range;
use crate::text::white_space;

verus! {

// ---------------------------------------------------------------------------------------
// Trimming
// ---------------------------------------------------------------------------------------

/// A text without its leading white space.
pub open spec fn trim_start(s: Seq<char>) -> Seq<char>
    decreases s.len(),
{
    if s.len() > 0 && white_space(s[0]) {
        trim_start(s.drop_first())
    } else {
        s
    }
}

/// A text without its trailing white space.
pub open spec fn trim_end(s: Seq<char>) -> Seq<char>
    decreases s.len(),
{
    if s.len() > 0 && white_space(s.last()) {
        trim_end(s.drop_last())
    } else {
        s
    }
}

/// A text without the white space around it.
pub open spec fn trim(s: Seq<char>) -> Seq<char> {
    trim_end(trim_start(s))
}

/// Removes the white space around a text.
pub fn trim_chars(v: &Vec<char>) -> (r: Vec<char>)
    ensures
        r@ == trim(v@),
{
    let n = v.len();
    let mut from: usize = 0;
    proof {
        assert(v@.subrange(0, n as int) =~= v@);
    }
    while from < n && v[from].is_whitespace()
        invariant
            from <= n == v@.len(),
            trim_start(v@.subrange(from as int, n as int)) == trim_start(v@),
        decreases n - from,
    {
        proof {
            assert(v@.subrange(from as int, n as int).drop_first() =~= v@.subrange(from + 1, n as int));
        }
        from += 1;
    }
    proof {
        assert(trim_start(v@) == v@.subrange(from as int, n as int));
    }
    let mut to: usize = n;
    while to > from && v[to - 1].is_whitespace()
        invariant
            from <= to <= n == v@.len(),
            trim_end(v@.subrange(from as int, to as int)) == trim_end(v@.subrange(from as int, n as int)),
        decreases to,
    {
        proof {
            assert(v@.subrange(from as int, to as int).drop_last() =~= v@.subrange(from as int, to - 1));
        }
        to -= 1;
    }
    chars_of_range(v, from, to)
}

// ---------------------------------------------------------------------------------------
// Splitting
// ---------------------------------------------------------------------------------------

/// How many characters stand before the first `c`, or the length where there is none.
pub open spec fn until_char(s: Seq<char>, c: char) -> nat
    decreases s.len(),
{
    if s.len() == 0 || s[0] == c {
        0
    } else {
        1 + until_char(s.drop_first(), c)
    }
}

/// How many characters stand before the first white space, or the length where there is
/// none.
pub open spec fn until_white(s: Seq<char>) -> nat
    decreases s.len(),
{
    if s.len() == 0 || white_space(s[0]) {
        0
    } else {
        1 + until_white(s.drop_first())
    }
}

/// `until_char` stops at the first `c` and nowhere before it.
pub proof fn lemma_until_char(s: Seq<char>, c: char)
    ensures
        until_char(s, c) <= s.len(),
        forall|k: int| 0 <= k < until_char(s, c) ==> s[k] != c,
        until_char(s, c) < s.len() ==> s[until_char(s, c) as int] == c,
    decreases s.len(),
{
    if s.len() == 0 || s[0] == c {
    } else {
        let t = s.drop_first();
        lemma_until_char(t, c);
        assert forall|k: int| 0 <= k < until_char(s, c) implies s[k] != c by {
            if k > 0 {
                assert(t[k - 1] == s[k]);
            }
        }
        if until_char(s, c) < s.len() {
            assert(s[until_char(s, c) as int] == t[until_char(t, c) as int]);
        }
    }
}

/// A prefix without `c` is skipped by `until_char`.
pub proof fn lemma_until_char_skip(s: Seq<char>, c: char, k: int)
    requires
        0 <= k <= s.len(),
        forall|j: int| 0 <= j < k ==> s[j] != c,
    ensures
        until_char(s, c) == k + until_char(s.skip(k), c),
    decreases k,
{
    if k == 0 {
        assert(s.skip(0) =~= s);
    } else {
        let t = s.drop_first();
        assert forall|j: int| 0 <= j < k - 1 implies t[j] != c by {
            assert(t[j] == s[j + 1]);
        }
        lemma_until_char_skip(t, c, k - 1);
        assert(t.skip(k - 1) =~= s.skip(k));
    }
}

/// `until_white` stops inside the text.
pub proof fn lemma_until_white(s: Seq<char>)
    ensures
        until_white(s) <= s.len(),
    decreases s.len(),
{
    if s.len() > 0 && !white_space(s[0]) {
        lemma_until_white(s.drop_first());
    }
}

/// A prefix without white space is skipped by `until_white`.
pub proof fn lemma_until_white_skip(s: Seq<char>, k: int)
    requires
        0 <= k <= s.len(),
        forall|j: int| 0 <= j < k ==> !white_space(s[j]),
    ensures
        until_white(s) == k + until_white(s.skip(k)),
    decreases k,
{
    if k == 0 {
        assert(s.skip(0) =~= s);
    } else {
        let t = s.drop_first();
        assert forall|j: int| 0 <= j < k - 1 implies !white_space(t[j]) by {
            assert(t[j] == s[j + 1]);
        }
        lemma_until_white_skip(t, k - 1);
        assert(t.skip(k - 1) =~= s.skip(k));
    }
}

/// The pieces between the occurrences of `c`: one more than there are occurrences.
pub open spec fn split_on(s: Seq<char>, c: char) -> Seq<Seq<char>>
    decreases s.len(),
{
    let k = until_char(s, c) as int;
    if k >= s.len() {
        seq![s]
    } else {
        seq![s.take(k)] + split_on(s.skip(k + 1), c)
    }
}

/// The words of a text: its longest runs without white space.
pub open spec fn words(s: Seq<char>) -> Seq<Seq<char>>
    decreases s.len(),
{
    if s.len() == 0 {
        Seq::<Seq<char>>::empty()
    } else if white_space(s[0]) {
        words(s.drop_first())
    } else {
        let k = until_white(s) as int;
        proof {
            lemma_until_white(s);
        }
        seq![s.take(k)] + words(s.skip(k))
    }
}

/// White space between two texts parts their words.
pub proof fn lemma_words_parted(a: Seq<char>, c: char, b: Seq<char>)
    requires
        white_space(c),
    ensures
        words(a + seq![c] + b) == words(a) + words(b),
    decreases a.len(),
{
    let s = a + seq![c] + b;
    if a.len() == 0 {
        assert(s[0] == c);
        assert(s.drop_first() =~= b);
        assert(words(a) + words(b) =~= words(b));
    } else if white_space(a[0]) {
        assert(s[0] == a[0]);
        assert(s.drop_first() =~= a.drop_first() + seq![c] + b);
        lemma_words_parted(a.drop_first(), c, b);
    } else {
        assert(s[0] == a[0]);
        let k = until_white(a) as int;
        lemma_until_white(a);
        lemma_until_white_within(a, c, b);
        assert(k > 0);
        assert(s.take(k) =~= a.take(k));
        assert(s.skip(k) =~= a.skip(k) + seq![c] + b);
        lemma_words_parted(a.skip(k), c, b);
        assert(seq![a.take(k)] + (words(a.skip(k)) + words(b)) =~= seq![a.take(k)] + words(
            a.skip(k),
        ) + words(b));
    }
}

proof fn lemma_until_white_within(a: Seq<char>, c: char, b: Seq<char>)
    requires
        white_space(c),
    ensures
        until_white(a + seq![c] + b) == until_white(a),
    decreases a.len(),
{
    let s = a + seq![c] + b;
    if a.len() == 0 {
        assert(s[0] == c);
    } else {
        assert(s[0] == a[0]);
        assert(s.drop_first() =~= a.drop_first() + seq![c] + b);
        if !white_space(a[0]) {
            lemma_until_white_within(a.drop_first(), c, b);
        }
    }
}

/// A line without the carriage return that ends it.
pub open spec fn strip_return(s: Seq<char>) -> Seq<char> {
    if s.len() > 0 && s.last() == '\r' {
        s.drop_last()
    } else {
        s
    }
}

/// The lines of a text. A line ends with a line feed or with a carriage return and a line
/// feed, neither of which belongs to it; the last line may go without.
pub open spec fn text_lines(s: Seq<char>) -> Seq<Seq<char>>
    decreases s.len(),
{
    let k = until_char(s, '\n') as int;
    if s.len() == 0 {
        Seq::<Seq<char>>::empty()
    } else if k >= s.len() {
        seq![s]
    } else {
        seq![strip_return(s.take(k))] + text_lines(s.skip(k + 1))
    }
}

/// The index of the first `c` at or after `from`, or the length.
pub fn find_from(v: &Vec<char>, from: usize, c: char) -> (r: usize)
    requires
        from <= v@.len(),
    ensures
        r == from + until_char(v@.skip(from as int), c),
        from <= r <= v@.len(),
{
    let mut i: usize = from;
    let ghost s = v@.skip(from as int);
    while i < v.len() && v[i] != c
        invariant
            from <= i <= v@.len(),
            s == v@.skip(from as int),
            forall|j: int| 0 <= j < i - from ==> s[j] != c,
        decreases v@.len() - i,
    {
        i += 1;
    }
    proof {
        lemma_until_char_skip(s, c, i - from);
        assert(s.skip(i - from) =~= v@.skip(i as int));
    }
    i
}

/// Splits a text at every `c`.
pub fn split_chars(v: &Vec<char>, c: char) -> (r: Vec<Vec<char>>)
    ensures
        char_texts(r@) == split_on(v@, c),
        r@.len() > 0,
{
    let mut out: Vec<Vec<char>> = Vec::new();
    let mut from: usize = 0;
    proof {
        assert(v@.skip(0) =~= v@);
        assert(char_texts(out@) + split_on(v@, c) =~= split_on(v@, c));
    }
    loop
        invariant
            from <= v@.len(),
            char_texts(out@) + split_on(v@.skip(from as int), c) == split_on(v@, c),
        decreases v@.len() - from,
    {
        let to = find_from(v, from, c);
        let piece = chars_of_range(v, from, to);
        let ghost s = v@.skip(from as int);
        let ghost before = char_texts(out@);
        proof {
            assert(piece@ =~= s.take(to - from));
        }
        out.push(piece);
        proof {
            assert(char_texts(out@) =~= before.push(piece@));
        }
        if to == v.len() {
            proof {
                assert(piece@ =~= s);
                assert(before.push(piece@) =~= before + seq![s]);
            }
            return out;
        }
        proof {
            assert(s.skip(to - from + 1) =~= v@.skip(to + 1));
            assert(before.push(piece@) + split_on(v@.skip(to + 1), c) =~= before + (seq![piece@]
                + split_on(v@.skip(to + 1), c)));
        }
        from = to + 1;
    }
}

/// Splits a text into its words.
pub fn split_words(v: &Vec<char>) -> (r: Vec<Vec<char>>)
    ensures
        char_texts(r@) == words(v@),
{
    let mut out: Vec<Vec<char>> = Vec::new();
    let mut i: usize = 0;
    proof {
        assert(v@.skip(0) =~= v@);
        assert(char_texts(out@) + words(v@) =~= words(v@));
    }
    while i < v.len()
        invariant
            i <= v@.len(),
            char_texts(out@) + words(v@.skip(i as int)) == words(v@),
        decreases v@.len() - i,
    {
        let ghost s = v@.skip(i as int);
        if v[i].is_whitespace() {
            proof {
                assert(s.drop_first() =~= v@.skip(i + 1));
            }
            i += 1;
        } else {
            let from: usize = i;
            while i < v.len() && !v[i].is_whitespace()
                invariant
                    from <= i <= v@.len(),
                    s == v@.skip(from as int),
                    forall|j: int| 0 <= j < i - from ==> !white_space(s[j]),
                    i == from ==> i < v@.len() && !white_space(v@[i as int]),
                decreases v@.len() - i,
            {
                i += 1;
            }
            let word = chars_of_range(v, from, i);
            let ghost before = char_texts(out@);
            proof {
                lemma_until_white_skip(s, i - from);
                assert(s.skip(i - from) =~= v@.skip(i as int));
                assert(word@ =~= s.take(i - from));
            }
            out.push(word);
            proof {
                assert(char_texts(out@) =~= before.push(word@));
                assert(before.push(word@) + words(v@.skip(i as int)) =~= before + (seq![word@] + words(
                    v@.skip(i as int),
                )));
            }
        }
    }
    proof {
        assert(char_texts(out@) + words(v@.skip(i as int)) =~= char_texts(out@));
    }
    out
}

/// Splits a text into its lines.
pub fn split_lines(v: &Vec<char>) -> (r: Vec<Vec<char>>)
    ensures
        char_texts(r@) == text_lines(v@),
{
    let mut out: Vec<Vec<char>> = Vec::new();
    let mut from: usize = 0;
    proof {
        assert(v@.skip(0) =~= v@);
        assert(char_texts(out@) + text_lines(v@) =~= text_lines(v@));
    }
    while from < v.len()
        invariant
            from <= v@.len(),
            char_texts(out@) + text_lines(v@.skip(from as int)) == text_lines(v@),
        decreases v@.len() - from,
    {
        let end = find_from(v, from, '\n');
        let ghost s = v@.skip(from as int);
        let ghost before = char_texts(out@);
        if end == v.len() {
            let line = chars_of_range(v, from, end);
            proof {
                assert(line@ =~= s);
            }
            out.push(line);
            proof {
                assert(char_texts(out@) =~= before + seq![s]);
            }
            return out;
        }
        let to = if end > from && v[end - 1] == '\r' {
            end - 1
        } else {
            end
        };
        let line = chars_of_range(v, from, to);
        proof {
            assert(line@ =~= strip_return(s.take(end - from)));
            assert(s.skip(end - from + 1) =~= v@.skip(end + 1));
        }
        out.push(line);
        proof {
            assert(char_texts(out@) =~= before.push(line@));
            assert(before.push(line@) + text_lines(v@.skip(end + 1)) =~= before + (seq![line@]
                + text_lines(v@.skip(end + 1))));
        }
        from = end + 1;
    }
    proof {
        assert(char_texts(out@) + text_lines(v@.skip(from as int)) =~= char_texts(out@));
    }
    out
}

// ---------------------------------------------------------------------------------------
// Replacing and joining
// ---------------------------------------------------------------------------------------

/// Every occurrence of the two characters `a`, `b` is replaced by `by`; the occurrences
/// are found from left to right and do not overlap.
pub open spec fn replace_pair(s: Seq<char>, a: char, b: char, by: Seq<char>) -> Seq<char>
    decreases s.len(),
{
    if s.len() < 2 {
        s
    } else if s[0] == a && s[1] == b {
        by + replace_pair(s.skip(2), a, b, by)
    } else {
        seq![s[0]] + replace_pair(s.drop_first(), a, b, by)
    }
}

/// Replaces the pair `a`, `b` by one character or by nothing.
pub fn replace_pair_chars(v: &Vec<char>, a: char, b: char, by: Option<char>) -> (r: Vec<char>)
    ensures
        r@ == replace_pair(
            v@,
            a,
            b,
            match by {
                Some(c) => seq![c],
                None => Seq::<char>::empty(),
            },
        ),
{
    let ghost fill = match by {
        Some(c) => seq![c],
        None => Seq::<char>::empty(),
    };
    let mut out: Vec<char> = Vec::new();
    let mut i: usize = 0;
    proof {
        assert(v@.skip(0) =~= v@);
        assert(out@ + replace_pair(v@, a, b, fill) =~= replace_pair(v@, a, b, fill));
    }
    while i < v.len()
        invariant
            i <= v@.len(),
            fill == match by {
                Some(c) => seq![c],
                None => Seq::<char>::empty(),
            },
            out@ + replace_pair(v@.skip(i as int), a, b, fill) == replace_pair(v@, a, b, fill),
        decreases v@.len() - i,
    {
        let ghost s = v@.skip(i as int);
        let ghost before = out@;
        if v.len() - i >= 2 && v[i] == a && v[i + 1] == b {
            if let Some(c) = by {
                out.push(c);
            }
            proof {
                assert(out@ =~= before + fill);
                assert(s.skip(2) =~= v@.skip(i + 2));
                assert(out@ + replace_pair(v@.skip(i + 2), a, b, fill) =~= before + (fill + replace_pair(
                    v@.skip(i + 2),
                    a,
                    b,
                    fill,
                )));
            }
            i += 2;
        } else {
            out.push(v[i]);
            proof {
                assert(s.drop_first() =~= v@.skip(i + 1));
                if s.len() < 2 {
                    assert(replace_pair(v@.skip(i + 1), a, b, fill) =~= Seq::<char>::empty());
                    assert(s =~= seq![v@[i as int]]);
                    assert(out@ =~= before + s);
                    assert(out@ + replace_pair(v@.skip(i + 1), a, b, fill) =~= out@);
                } else {
                    assert(out@ + replace_pair(v@.skip(i + 1), a, b, fill) =~= before + (seq![s[0]]
                        + replace_pair(v@.skip(i + 1), a, b, fill)));
                }
            }
            i += 1;
        }
    }
    proof {
        assert(out@ + replace_pair(v@.skip(i as int), a, b, fill) =~= out@);
    }
    out
}

/// The texts one after the other with `sep` between any two.
pub open spec fn join(parts: Seq<Seq<char>>, sep: char) -> Seq<char>
    decreases parts.len(),
{
    if parts.len() == 0 {
        Seq::<char>::empty()
    } else if parts.len() == 1 {
        parts[0]
    } else {
        join(parts.drop_last(), sep) + seq![sep] + parts.last()
    }
}

/// Joining two lists of texts is joining each and putting `sep` between the two; a list
/// without texts adds nothing.
pub proof fn lemma_join_append(x: Seq<Seq<char>>, y: Seq<Seq<char>>, sep: char)
    ensures
        join(x + y, sep) == if x.len() == 0 {
            join(y, sep)
        } else if y.len() == 0 {
            join(x, sep)
        } else {
            join(x, sep) + seq![sep] + join(y, sep)
        },
    decreases y.len(),
{
    if x.len() == 0 {
        assert(x + y =~= y);
    } else if y.len() == 0 {
        assert(x + y =~= x);
    } else {
        assert((x + y).drop_last() =~= x + y.drop_last());
        assert((x + y).last() == y.last());
        lemma_join_append(x, y.drop_last(), sep);
        if y.len() > 1 {
            assert(join(x, sep) + seq![sep] + join(y.drop_last(), sep) + seq![sep] + y.last()
                =~= join(x, sep) + seq![sep] + (join(y.drop_last(), sep) + seq![sep] + y.last()));
        }
    }
}

/// Texts that are not empty join to a text that is not empty.
pub proof fn lemma_join_empty(parts: Seq<Seq<char>>, sep: char)
    requires
        forall|i: int| 0 <= i < parts.len() ==> (#[trigger] parts[i]).len() > 0,
    ensures
        join(parts, sep).len() == 0 <==> parts.len() == 0,
{
    if parts.len() == 1 {
        assert(parts[0].len() > 0);
    }
}

/// Joins texts with `sep` between any two.
pub fn join_chars(parts: &Vec<Vec<char>>, sep: char) -> (r: String)
    ensures
        r@ == join(char_texts(parts@), sep),
{
    let mut out: String = String::new();
    let ghost ps = char_texts(parts@);
    let mut i: usize = 0;
    while i < parts.len()
        invariant
            i <= parts@.len(),
            ps == char_texts(parts@),
            out@ =~= join(ps.take(i as int), sep),
        decreases parts@.len() - i,
    {
        let ghost before = out@;
        if i > 0 {
            out.push(sep);
        }
        let ghost head = out@;
        let part = &parts[i];
        let mut j: usize = 0;
        while j < part.len()
            invariant
                j <= part@.len(),
                out@ =~= head + part@.take(j as int),
            decreases part@.len() - j,
        {
            out.push(part[j]);
            j += 1;
        }
        proof {
            assert(part@.take(j as int) =~= part@);
            assert(ps.take(i + 1).drop_last() =~= ps.take(i as int));
            assert(ps.take(i + 1).last() == part@);
            if i == 0 {
                assert(head =~= Seq::<char>::empty());
            } else {
                assert(head =~= before + seq![sep]);
            }
        }
        i += 1;
    }
    proof {
        assert(ps.take(i as int) =~= ps);
    }
    out
}

// ---------------------------------------------------------------------------------------
// Laws
// ---------------------------------------------------------------------------------------

pub proof fn lemma_trim_start(a: Seq<char>, t: Seq<char>)
    requires
        forall|i: int| 0 <= i < a.len() ==> white_space(#[trigger] a[i]),
        t.len() == 0 || !white_space(t[0]),
    ensures
        trim_start(a + t) == t,
    decreases a.len(),
{
    if a.len() == 0 {
        assert(a + t =~= t);
    } else {
        assert((a + t)[0] == a[0]);
        assert((a + t).drop_first() =~= a.drop_first() + t);
        lemma_trim_start(a.drop_first(), t);
    }
}

proof fn lemma_trim_end(t: Seq<char>, b: Seq<char>)
    requires
        forall|i: int| 0 <= i < b.len() ==> white_space(#[trigger] b[i]),
        t.len() == 0 || !white_space(t.last()),
    ensures
        trim_end(t + b) == t,
    decreases b.len(),
{
    if b.len() == 0 {
        assert(t + b =~= t);
    } else {
        assert((t + b).last() == b.last());
        assert((t + b).drop_last() =~= t + b.drop_last());
        lemma_trim_end(t, b.drop_last());
    }
}

/// Trimming removes all the white space before and after a text, and nothing of the text.
pub proof fn law_trim_removes_white_space(a: Seq<char>, s: Seq<char>, b: Seq<char>)
    requires
        forall|i: int| 0 <= i < a.len() ==> white_space(#[trigger] a[i]),
        forall|i: int| 0 <= i < b.len() ==> white_space(#[trigger] b[i]),
        s.len() == 0 || (!white_space(s[0]) && !white_space(s.last())),
    ensures
        trim(a + s + b) == s,
{
    if s.len() == 0 {
        let e = Seq::<char>::empty();
        assert(a + s + b =~= (a + b) + e);
        assert forall|i: int| 0 <= i < (a + b).len() implies white_space(#[trigger] (a + b)[i]) by {
            if i < a.len() {
                assert((a + b)[i] == a[i]);
            } else {
                assert((a + b)[i] == b[i - a.len()]);
            }
        }
        lemma_trim_start(a + b, e);
    } else {
        assert(a + s + b =~= a + (s + b));
        assert((s + b)[0] == s[0]);
        lemma_trim_start(a, s + b);
        lemma_trim_end(s, b);
    }
}

/// Splitting a text at a character leaves pieces without that character, and the pieces
/// joined by it are the text again.
pub proof fn law_split_then_join(s: Seq<char>, c: char)
    ensures
        split_on(s, c).len() > 0,
        join(split_on(s, c), c) == s,
        forall|i: int| 0 <= i < split_on(s, c).len() ==> !(#[trigger] split_on(s, c)[i]).contains(c),
    decreases s.len(),
{
    let k = until_char(s, c) as int;
    lemma_until_char(s, c);
    if k >= s.len() {
        assert(split_on(s, c)[0] == s);
    } else {
        let rest = s.skip(k + 1);
        law_split_then_join(rest, c);
        let head = seq![s.take(k)];
        lemma_join_append(head, split_on(rest, c), c);
        assert(join(head, c) == s.take(k));
        assert(s =~= s.take(k) + seq![c] + rest);
        assert forall|i: int| 0 <= i < split_on(s, c).len() implies !(#[trigger] split_on(
            s,
            c,
        )[i]).contains(c) by {
            if i > 0 {
                assert(split_on(s, c)[i] == split_on(rest, c)[i - 1]);
            }
        }
    }
}

/// The line up to a line feed is a line of its own, without the carriage return before the
/// line feed where there is one.
pub proof fn law_line_feed_ends_a_line(a: Seq<char>, b: Seq<char>)
    requires
        !a.contains('\n'),
    ensures
        a.len() == 0 || a.last() != '\r' ==> text_lines(a + seq!['\n'] + b) == seq![a] + text_lines(b),
        text_lines(a + seq!['\r', '\n'] + b) == seq![a] + text_lines(b),
{
    let n = a.len() as int;
    let s = a + seq!['\n'] + b;
    assert forall|j: int| 0 <= j < a.len() implies s[j] != '\n' by {
        assert(a.contains(a[j]));
    }
    lemma_until_char_skip(s, '\n', n);
    assert(s.skip(n)[0] == '\n');
    assert(s.take(n) =~= a);
    assert(s.skip(n + 1) =~= b);
    let t = a + seq!['\r', '\n'] + b;
    assert forall|j: int| 0 <= j < n + 1 implies t[j] != '\n' by {
        if j < a.len() {
            assert(a.contains(a[j]));
        }
    }
    lemma_until_char_skip(t, '\n', n + 1);
    assert(t.skip(n + 1)[0] == '\n');
    assert(t.take(n + 1) =~= a.push('\r'));
    assert(a.push('\r').drop_last() =~= a);
    assert(t.skip(n + 2) =~= b);
}

/// A text without a line feed is one line, as it is; an empty text has no lines.
pub proof fn law_last_line_needs_no_line_feed(a: Seq<char>)
    requires
        !a.contains('\n'),
    ensures
        a.len() > 0 ==> text_lines(a) == seq![a],
        a.len() == 0 ==> text_lines(a).len() == 0,
{
    lemma_until_char(a, '\n');
    if until_char(a, '\n') < a.len() {
        assert(a.contains(a[until_char(a, '\n') as int]));
    }
}

/// A text without white space is one word, and white space alone has no words.
pub proof fn law_words_of_a_word(w: Seq<char>)
    ensures
        w.len() > 0 && (forall|i: int| 0 <= i < w.len() ==> !white_space(#[trigger] w[i])) ==> words(
            w,
        ) == seq![w],
        (forall|i: int| 0 <= i < w.len() ==> white_space(#[trigger] w[i])) ==> words(w).len() == 0,
    decreases w.len(),
{
    if w.len() > 0 {
        if white_space(w[0]) {
            law_words_of_a_word(w.drop_first());
            if forall|i: int| 0 <= i < w.len() ==> white_space(#[trigger] w[i]) {
                let t = w.drop_first();
                assert forall|i: int| 0 <= i < t.len() implies white_space(#[trigger] t[i]) by {
                    assert(t[i] == w[i + 1]);
                }
            }
        } else if forall|i: int| 0 <= i < w.len() ==> !white_space(#[trigger] w[i]) {
            lemma_until_white(w);
            let e = w.skip(w.len() as int);
            lemma_until_white_skip(w, w.len() as int);
            assert(until_white(w) == w.len());
            assert(w.take(w.len() as int) =~= w);
            assert(words(e).len() == 0);
            assert(words(w) =~= seq![w]);
        }
    }
}

/// Joining two texts puts the separator between them.
pub proof fn law_join_puts_separator_between(a: Seq<char>, b: Seq<char>, sep: char)
    ensures
        join(seq![a, b], sep) == a + seq![sep] + b,
        join(seq![a], sep) == a,
        join(Seq::<Seq<char>>::empty(), sep).len() == 0,
{
    assert(seq![a, b].drop_last() =~= seq![a]);
    assert(join(seq![a], sep) == a);
}

} // verus!
