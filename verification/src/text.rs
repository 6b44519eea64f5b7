//! Text scanning over the characters of a string: lines, substring search,
//! whitespace trimming and tokens, with the meaning of each operation stated
//! as a spec function over `Seq<char>`.

use vstd::prelude::*;

verus! {

// ---------------------------------------------------------------------------
// Characters
// ---------------------------------------------------------------------------

/// The Unicode `White_Space` property, the set of characters that
/// `char::is_whitespace` accepts.
pub open spec fn is_white_space(c: char) -> bool {
    ||| c == '\t'
    ||| c == '\n'
    ||| c == '\u{0B}'
    ||| c == '\u{0C}'
    ||| c == '\r'
    ||| c == ' '
    ||| c == '\u{85}'
    ||| c == '\u{A0}'
    ||| c == '\u{1680}'
    ||| (0x2000 <= (c as u32) && (c as u32) <= 0x200A)
    ||| c == '\u{2028}'
    ||| c == '\u{2029}'
    ||| c == '\u{202F}'
    ||| c == '\u{205F}'
    ||| c == '\u{3000}'
}

/// Decides `is_white_space`.
pub fn white_space(c: char) -> (b: bool)
    ensures
        b == is_white_space(c),
{
    let u: u32 = c as u32;
    c == '\t' || c == '\n' || c == '\u{0B}' || c == '\u{0C}' || c == '\r' || c == ' '
        || c == '\u{85}' || c == '\u{A0}' || c == '\u{1680}' || (0x2000 <= u && u <= 0x200A)
        || c == '\u{2028}' || c == '\u{2029}' || c == '\u{202F}' || c == '\u{205F}'
        || c == '\u{3000}'
}

/// The characters of `s`, in order.
pub fn chars_of(s: &str) -> (v: Vec<char>)
    ensures
        v@ == s@,
{
    let mut v: Vec<char> = Vec::new();
    for c in it: s.chars()
        invariant
            v@ == it.seq().take(it.index() as int),
            it.seq() == s@,
    {
        v.push(c);
    }
    v
}

/// A copy of the characters `v[from..to]`.
pub fn copy_range(v: &Vec<char>, from: usize, to: usize) -> (r: Vec<char>)
    requires
        from <= to <= v.len(),
    ensures
        r@ == v@.subrange(from as int, to as int),
{
    let mut r: Vec<char> = Vec::new();
    let mut i = from;
    while i < to
        invariant
            from <= i <= to <= v.len(),
            r@ == v@.subrange(from as int, i as int),
        decreases to - i,
    {
        r.push(v[i]);
        i = i + 1;
    }
    r
}

/// The text of `s` between the character positions `from` and `to`, as an owned string.
pub fn string_of_range(s: &str, from: usize, to: usize) -> (r: String)
    requires
        from <= to <= s@.len(),
    ensures
        r@ == s@.subrange(from as int, to as int),
{
    let piece: &str = s.substring_char(from, to);
    piece.to_owned()
}

/// Whether two texts hold the same characters.
pub fn same_text(a: &str, b: &str) -> (r: bool)
    ensures
        r == (a@ == b@),
{
    let x = chars_of(a);
    let y = chars_of(b);
    if x.len() != y.len() {
        return false;
    }
    let mut i: usize = 0;
    while i < x.len()
        invariant
            x@ == a@,
            y@ == b@,
            x@.len() == y@.len(),
            i <= x@.len(),
            forall|k: int| 0 <= k < i ==> x@[k] == y@[k],
        decreases x.len() - i,
    {
        if x[i] != y[i] {
            proof {
                assert(a@[i as int] != b@[i as int]);
            }
            return false;
        }
        i = i + 1;
    }
    proof {
        assert(x@ =~= y@);
    }
    true
}

// ---------------------------------------------------------------------------
// Lines
// ---------------------------------------------------------------------------

/// Position of the first `'\n'` in `s`, or `s.len()` where there is none.
pub open spec fn first_newline(s: Seq<char>) -> nat
    decreases s.len(),
{
    if s.len() == 0 {
        0
    } else if s[0] == '\n' {
        0
    } else {
        1 + first_newline(s.drop_first())
    }
}

/// A line without the `'\r'` that ends it, if one does.
pub open spec fn strip_cr(line: Seq<char>) -> Seq<char> {
    if line.len() > 0 && line.last() == '\r' {
        line.drop_last()
    } else {
        line
    }
}

pub proof fn lemma_first_newline_bound(s: Seq<char>)
    ensures
        first_newline(s) <= s.len(),
        first_newline(s) < s.len() ==> s[first_newline(s) as int] == '\n',
        forall|k: int| 0 <= k < first_newline(s) ==> s[k] != '\n',
    decreases s.len(),
{
    if s.len() > 0 && s[0] != '\n' {
        lemma_first_newline_bound(s.drop_first());
        assert forall|k: int| 0 <= k < first_newline(s) implies s[k] != '\n' by {
            if k > 0 {
                assert(s[k] == s.drop_first()[k - 1]);
            }
        }
    }
}

/// The lines of a text, as `str::lines` gives them: the text is cut after
/// each `'\n'`, the `'\n'` is dropped and so is a `'\r'` just before it; a
/// last line without a `'\n'` is kept whole, and a text that ends with a
/// `'\n'` has no empty line after it.
pub open spec fn lines(s: Seq<char>) -> Seq<Seq<char>>
    decreases s.len(),
{
    if s.len() == 0 {
        seq![]
    } else {
        let i = first_newline(s);
        if i >= s.len() {
            seq![s]
        } else {
            proof {
                lemma_first_newline_bound(s);
            }
            seq![strip_cr(s.take(i as int))] + lines(s.skip(i + 1 as int))
        }
    }
}

proof fn lemma_first_newline_is(s: Seq<char>, j: int)
    requires
        0 <= j <= s.len(),
        forall|k: int| 0 <= k < j ==> s[k] != '\n',
        j < s.len() ==> s[j] == '\n',
    ensures
        first_newline(s) == j,
    decreases j,
{
    if j > 0 {
        assert forall|k: int| 0 <= k < j - 1 implies s.drop_first()[k] != '\n' by {
            assert(s.drop_first()[k] == s[k + 1]);
        }
        lemma_first_newline_is(s.drop_first(), j - 1);
    }
}

/// The lines of `v`, each given by its start and end position in `v`.
pub fn line_spans(v: &Vec<char>) -> (spans: Vec<(usize, usize)>)
    ensures
        spans@.len() == lines(v@).len(),
        forall|k: int|
            #![trigger spans@[k]]
            0 <= k < spans@.len() ==> {
                &&& spans@[k].0 <= spans@[k].1
                &&& spans@[k].1 <= v@.len()
                &&& v@.subrange(spans@[k].0 as int, spans@[k].1 as int) == lines(v@)[k]
            },
{
    let mut spans: Vec<(usize, usize)> = Vec::new();
    let len = v.len();
    let mut pos: usize = 0;
    let ghost mut done: Seq<Seq<char>> = seq![];
    proof {
        assert(v@.skip(0) =~= v@);
        assert(done + lines(v@) =~= lines(v@));
    }
    while pos < len
        invariant
            len == v@.len(),
            pos <= len,
            lines(v@) == done + lines(v@.skip(pos as int)),
            spans@.len() == done.len(),
            forall|k: int|
                #![trigger spans@[k]]
                0 <= k < spans@.len() ==> {
                    &&& spans@[k].0 <= spans@[k].1
                &&& spans@[k].1 <= v@.len()
                    &&& v@.subrange(spans@[k].0 as int, spans@[k].1 as int) == done[k]
                },
        decreases len - pos,
    {
        let mut j = pos;
        while j < len && v[j] != '\n'
            invariant
                len == v@.len(),
                pos <= j <= len,
                forall|k: int| pos <= k < j ==> v@[k] != '\n',
            decreases len - j,
        {
            j = j + 1;
        }
        let ghost rest = v@.skip(pos as int);
        proof {
            lemma_first_newline_is(rest, j - pos);
        }
        let mut end = j;
        let next: usize;
        if j == len {
            next = len;
        } else {
            next = j + 1;
            if end > pos && v[end - 1] == '\r' {
                end = end - 1;
            }
        }
        let ghost line = v@.subrange(pos as int, end as int);
        proof {
            if j == len {
                assert(lines(rest) == seq![rest]);
                assert(line =~= rest);
                assert(v@.skip(len as int) =~= Seq::<char>::empty());
                assert(lines(v@.skip(next as int)) =~= Seq::<Seq<char>>::empty());
                assert(lines(rest) =~= seq![line] + lines(v@.skip(next as int)));
            } else {
                assert(rest.take(j - pos) =~= v@.subrange(pos as int, j as int));
                assert(strip_cr(rest.take(j - pos)) =~= line);
                assert(rest.skip(j - pos + 1) =~= v@.skip(next as int));
                assert(lines(rest) == seq![line] + lines(v@.skip(next as int)));
            }
        }
        let ghost old_done = done;
        let ghost old_spans = spans@;
        spans.push((pos, end));
        proof {
            done = done.push(line);
            assert(lines(v@) =~= done + lines(v@.skip(next as int)));
            assert forall|k: int| #![trigger spans@[k]] 0 <= k < spans@.len() implies {
                &&& spans@[k].0 <= spans@[k].1
                &&& spans@[k].1 <= v@.len()
                &&& v@.subrange(spans@[k].0 as int, spans@[k].1 as int) == done[k]
            } by {
                if k < old_spans.len() {
                    assert(spans@[k] == old_spans[k]);
                    assert(done[k] == old_done[k]);
                } else {
                    assert(spans@[k] == (pos, end));
                    assert(done[k] == line);
                }
            }
        }
        pos = next;
    }
    proof {
        assert(v@.skip(pos as int) =~= Seq::<char>::empty());
        assert(lines(v@) =~= done);
        assert forall|k: int| #![trigger spans@[k]] 0 <= k < spans@.len() implies
            v@.subrange(spans@[k].0 as int, spans@[k].1 as int) == lines(v@)[k] by {
            assert(lines(v@)[k] == done[k]);
        }
    }
    spans
}

// ---------------------------------------------------------------------------
// Substring search
// ---------------------------------------------------------------------------

/// `p` stands in `s` starting at position `i`.
pub open spec fn occurs_at(s: Seq<char>, p: Seq<char>, i: int) -> bool {
    &&& 0 <= i
    &&& i + p.len() <= s.len()
    &&& s.subrange(i, i + p.len()) == p
}

/// `p` stands somewhere in `s` (as `str::contains` with a string pattern).
pub open spec fn contains(s: Seq<char>, p: Seq<char>) -> bool {
    exists|i: int| occurs_at(s, p, i)
}

/// The first position at or after `from` where `p` stands in `s`.
pub open spec fn find_from(s: Seq<char>, p: Seq<char>, from: int) -> Option<int>
    decreases s.len() + 1 - from,
    when 0 <= from
{
    if from + p.len() > s.len() {
        None
    } else if occurs_at(s, p, from) {
        Some(from)
    } else {
        find_from(s, p, from + 1)
    }
}

pub proof fn lemma_find_from(s: Seq<char>, p: Seq<char>, from: int)
    requires
        0 <= from,
    ensures
        find_from(s, p, from) matches Some(i) ==> {
            &&& from <= i
            &&& occurs_at(s, p, i)
            &&& forall|k: int| from <= k < i ==> !occurs_at(s, p, k)
        },
        find_from(s, p, from) is None ==> forall|k: int| from <= k ==> !occurs_at(s, p, k),
    decreases s.len() + 1 - from,
{
    if from + p.len() > s.len() {
    } else if occurs_at(s, p, from) {
    } else {
        lemma_find_from(s, p, from + 1);
    }
}

/// Whether `p` stands in `s` at position `i`.
pub fn matches_at(s: &Vec<char>, p: &Vec<char>, i: usize) -> (b: bool)
    ensures
        b == occurs_at(s@, p@, i as int),
{
    if i > s.len() || p.len() > s.len() - i {
        return false;
    }
    let mut k: usize = 0;
    while k < p.len()
        invariant
            i + p@.len() <= s@.len(),
            k <= p@.len(),
            forall|m: int| 0 <= m < k ==> s@[i + m] == p@[m],
        decreases p.len() - k,
    {
        assert(i + k < s.len());
        if s[i + k] != p[k] {
            proof {
                assert(s@.subrange(i as int, i + p@.len())[k as int] != p@[k as int]);
            }
            return false;
        }
        k = k + 1;
    }
    proof {
        assert(s@.subrange(i as int, i + p@.len()) =~= p@);
    }
    true
}

/// The first position at or after `from` where `p` stands in `s`.
pub fn find(s: &Vec<char>, p: &Vec<char>, from: usize) -> (r: Option<usize>)
    ensures
        match r {
            Some(i) => find_from(s@, p@, from as int) == Some(i as int),
            None => find_from(s@, p@, from as int) is None,
        },
{
    if p.len() > s.len() {
        return None;
    }
    let last = s.len() - p.len();
    let mut i = from;
    while i <= last
        invariant
            from <= i,
            last == s@.len() - p@.len(),
            find_from(s@, p@, from as int) == find_from(s@, p@, i as int),
        decreases last + 1 - i,
    {
        proof {
            if p@.len() == 0 {
                assert(s@.subrange(i as int, i as int) =~= p@);
            }
        }
        if matches_at(s, p, i) {
            return Some(i);
        }
        assert(p@.len() > 0);
        assert(i < s.len());
        i = i + 1;
    }
    None
}

/// Whether `p` stands anywhere in `s`.
pub fn contains_chars(s: &Vec<char>, p: &Vec<char>) -> (b: bool)
    ensures
        b == contains(s@, p@),
{
    let r = find(s, p, 0);
    proof {
        lemma_find_from(s@, p@, 0);
    }
    match r {
        Some(i) => {
            assert(occurs_at(s@, p@, i as int));
            true
        },
        None => false,
    }
}

/// Whether `s` begins with `p`.
pub open spec fn has_prefix(s: Seq<char>, p: Seq<char>) -> bool {
    p.len() <= s.len() && s.take(p.len() as int) == p
}

/// Whether `s` begins with `p`.
pub fn starts_with_chars(s: &Vec<char>, p: &Vec<char>) -> (b: bool)
    ensures
        b == has_prefix(s@, p@),
{
    let b = matches_at(s, p, 0);
    proof {
        if p@.len() <= s@.len() {
            assert(s@.subrange(0, p@.len() as int) =~= s@.take(p@.len() as int));
        }
    }
    b
}

// ---------------------------------------------------------------------------
// Whitespace
// ---------------------------------------------------------------------------

/// `s` without its leading whitespace.
pub open spec fn trim_start(s: Seq<char>) -> Seq<char>
    decreases s.len(),
{
    if s.len() > 0 && is_white_space(s[0]) {
        trim_start(s.drop_first())
    } else {
        s
    }
}

/// `s` without its trailing whitespace.
pub open spec fn trim_end(s: Seq<char>) -> Seq<char>
    decreases s.len(),
{
    if s.len() > 0 && is_white_space(s.last()) {
        trim_end(s.drop_last())
    } else {
        s
    }
}

/// `s` without leading and trailing whitespace (as `str::trim`).
pub open spec fn trim(s: Seq<char>) -> Seq<char> {
    trim_end(trim_start(s))
}

proof fn lemma_trim_start_is(s: Seq<char>, a: int)
    requires
        0 <= a <= s.len(),
        forall|k: int| 0 <= k < a ==> is_white_space(s[k]),
        a < s.len() ==> !is_white_space(s[a]),
    ensures
        trim_start(s) == s.skip(a),
    decreases a,
{
    if a == 0 {
        assert(s.skip(0) =~= s);
    } else {
        assert forall|k: int| 0 <= k < a - 1 implies is_white_space(s.drop_first()[k]) by {
            assert(s.drop_first()[k] == s[k + 1]);
        }
        lemma_trim_start_is(s.drop_first(), a - 1);
        assert(s.drop_first().skip(a - 1) =~= s.skip(a));
    }
}

proof fn lemma_trim_end_is(s: Seq<char>, b: int)
    requires
        0 <= b <= s.len(),
        forall|k: int| b <= k < s.len() ==> is_white_space(s[k]),
        b > 0 ==> !is_white_space(s[b - 1]),
    ensures
        trim_end(s) == s.take(b),
    decreases s.len() - b,
{
    if b == s.len() {
        assert(s.take(b) =~= s);
    } else {
        assert forall|k: int| b <= k < s.drop_last().len() implies is_white_space(s.drop_last()[k]) by {
            assert(s.drop_last()[k] == s[k]);
        }
        if b > 0 {
            assert(s.drop_last()[b - 1] == s[b - 1]);
        }
        lemma_trim_end_is(s.drop_last(), b);
        assert(s.drop_last().take(b) =~= s.take(b));
    }
}

/// The position of the first character of `s[from..to]` that is not whitespace, or `to`.
pub fn skip_white_space(s: &Vec<char>, from: usize, to: usize) -> (a: usize)
    requires
        from <= to <= s.len(),
    ensures
        from <= a <= to,
        forall|k: int| from <= k < a ==> is_white_space(s@[k]),
        a < to ==> !is_white_space(s@[a as int]),
{
    let mut a = from;
    while a < to && white_space(s[a])
        invariant
            from <= a <= to <= s.len(),
            forall|k: int| from <= k < a ==> is_white_space(s@[k]),
        decreases to - a,
    {
        a = a + 1;
    }
    a
}

/// The start and end, within `s[from..to]`, of that range without its leading
/// and trailing whitespace.
pub fn trim_range(s: &Vec<char>, from: usize, to: usize) -> (r: (usize, usize))
    requires
        from <= to <= s.len(),
    ensures
        from <= r.0 <= r.1 <= to,
        s@.subrange(r.0 as int, r.1 as int) == trim(s@.subrange(from as int, to as int)),
{
    let a = skip_white_space(s, from, to);
    let mut b = to;
    while b > a && white_space(s[b - 1])
        invariant
            from <= a <= b <= to <= s.len(),
            forall|k: int| b <= k < to ==> is_white_space(s@[k]),
        decreases b - a,
    {
        b = b - 1;
    }
    proof {
        let whole = s@.subrange(from as int, to as int);
        lemma_trim_start_is(whole, a - from);
        let t = whole.skip(a - from);
        assert(t =~= s@.subrange(a as int, to as int));
        lemma_trim_end_is(t, b - a);
        assert(t.take(b - a) =~= s@.subrange(a as int, b as int));
    }
    (a, b)
}

/// The length of the run of non-whitespace characters that begins `s`.
pub open spec fn word_len(s: Seq<char>) -> nat
    decreases s.len(),
{
    if s.len() == 0 || is_white_space(s[0]) {
        0
    } else {
        1 + word_len(s.drop_first())
    }
}

/// The first whitespace-separated word of `s` (as `split_whitespace().next()`).
pub open spec fn first_word(s: Seq<char>) -> Option<Seq<char>> {
    let t = trim_start(s);
    if t.len() == 0 {
        None
    } else {
        Some(t.take(word_len(t) as int))
    }
}

/// The first word of `s`, or `"0"` where `s` holds none.
pub open spec fn first_word_or_zero(s: Seq<char>) -> Seq<char> {
    match first_word(s) {
        Some(w) => w,
        None => seq!['0'],
    }
}

proof fn lemma_word_len_is(s: Seq<char>, j: int)
    requires
        0 <= j <= s.len(),
        forall|k: int| 0 <= k < j ==> !is_white_space(s[k]),
        j < s.len() ==> is_white_space(s[j]),
    ensures
        word_len(s) == j,
    decreases j,
{
    if j > 0 {
        assert forall|k: int| 0 <= k < j - 1 implies !is_white_space(s.drop_first()[k]) by {
            assert(s.drop_first()[k] == s[k + 1]);
        }
        lemma_word_len_is(s.drop_first(), j - 1);
    }
}

/// The range, within `s[from..to]`, of the first whitespace-separated word of
/// that range, where it holds one.
pub fn first_word_range(s: &Vec<char>, from: usize, to: usize) -> (r: Option<(usize, usize)>)
    requires
        from <= to <= s.len(),
    ensures
        match r {
            Some((a, b)) => {
                &&& from <= a <= b <= to
                &&& first_word(s@.subrange(from as int, to as int)) == Some(
                    s@.subrange(a as int, b as int),
                )
            },
            None => first_word(s@.subrange(from as int, to as int)) is None,
        },
{
    let a = skip_white_space(s, from, to);
    let ghost whole = s@.subrange(from as int, to as int);
    proof {
        lemma_trim_start_is(whole, a - from);
        assert(whole.skip(a - from) =~= s@.subrange(a as int, to as int));
    }
    if a == to {
        return None;
    }
    let mut b = a;
    while b < to && !white_space(s[b])
        invariant
            a <= b <= to <= s.len(),
            forall|k: int| a <= k < b ==> !is_white_space(s@[k]),
        decreases to - b,
    {
        b = b + 1;
    }
    proof {
        let t = s@.subrange(a as int, to as int);
        lemma_word_len_is(t, b - a);
        assert(t.take(b - a) =~= s@.subrange(a as int, b as int));
    }
    Some((a, b))
}

// ---------------------------------------------------------------------------
// Decimal numerals
// ---------------------------------------------------------------------------

/// The decimal digit character for `d`, for `d` below ten.
pub open spec fn digit_char(d: int) -> char {
    if d == 0 {
        '0'
    } else if d == 1 {
        '1'
    } else if d == 2 {
        '2'
    } else if d == 3 {
        '3'
    } else if d == 4 {
        '4'
    } else if d == 5 {
        '5'
    } else if d == 6 {
        '6'
    } else if d == 7 {
        '7'
    } else if d == 8 {
        '8'
    } else {
        '9'
    }
}

/// The decimal numeral of `n`, without leading zeros (as `format!("{}", n)`).
pub open spec fn decimal(n: nat) -> Seq<char>
    decreases n,
{
    if n < 10 {
        seq![digit_char(n as int)]
    } else {
        decimal(n / 10).push(digit_char((n % 10) as int))
    }
}

/// The decimal numeral of `n`, with zeros before it up to `width` characters
/// (as `format!("{:0width$}", n)`).
pub open spec fn zero_padded(n: nat, width: nat) -> Seq<char> {
    let d = decimal(n);
    if d.len() < width {
        Seq::new((width - d.len()) as nat, |i: int| '0') + d
    } else {
        d
    }
}

fn digit_str(d: u64) -> (r: &'static str)
    requires
        d < 10,
    ensures
        r@ == seq![digit_char(d as int)],
{
    proof {
        reveal_strlit("0");
        reveal_strlit("1");
        reveal_strlit("2");
        reveal_strlit("3");
        reveal_strlit("4");
        reveal_strlit("5");
        reveal_strlit("6");
        reveal_strlit("7");
        reveal_strlit("8");
        reveal_strlit("9");
    }
    if d == 0 {
        "0"
    } else if d == 1 {
        "1"
    } else if d == 2 {
        "2"
    } else if d == 3 {
        "3"
    } else if d == 4 {
        "4"
    } else if d == 5 {
        "5"
    } else if d == 6 {
        "6"
    } else if d == 7 {
        "7"
    } else if d == 8 {
        "8"
    } else {
        "9"
    }
}

/// Appends the decimal numeral of `n` to `s`.
pub fn push_decimal(s: &mut String, n: u64)
    ensures
        final(s)@ == old(s)@ + decimal(n as nat),
    decreases n,
{
    if n >= 10 {
        push_decimal(s, n / 10);
    }
    s.append(digit_str(n % 10));
    proof {
        if n >= 10 {
            assert(decimal(n as nat) == decimal((n / 10) as nat).push(digit_char((n % 10) as int)));
        }
        assert(final(s)@ =~= old(s)@ + decimal(n as nat));
    }
}

// ---------------------------------------------------------------------------
// Hexadecimal
// ---------------------------------------------------------------------------

/// The lower-case hexadecimal digit for `d`, for `d` below sixteen.
pub open spec fn hex_digit(d: int) -> char {
    if d < 10 {
        digit_char(d)
    } else if d == 10 {
        'a'
    } else if d == 11 {
        'b'
    } else if d == 12 {
        'c'
    } else if d == 13 {
        'd'
    } else if d == 14 {
        'e'
    } else {
        'f'
    }
}

/// The lower-case hexadecimal text of `b`: two digits per byte, the high
/// half first, bytes in order.
pub open spec fn hex_text(b: Seq<u8>) -> Seq<char>
    decreases b.len(),
{
    if b.len() == 0 {
        seq![]
    } else {
        hex_text(b.drop_last()) + seq![hex_digit(b.last() as int / 16), hex_digit(b.last() as int % 16)]
    }
}

fn hex_str(d: u8) -> (r: &'static str)
    requires
        d < 16,
    ensures
        r@ == seq![hex_digit(d as int)],
{
    proof {
        reveal_strlit("0");
        reveal_strlit("1");
        reveal_strlit("2");
        reveal_strlit("3");
        reveal_strlit("4");
        reveal_strlit("5");
        reveal_strlit("6");
        reveal_strlit("7");
        reveal_strlit("8");
        reveal_strlit("9");
        reveal_strlit("a");
        reveal_strlit("b");
        reveal_strlit("c");
        reveal_strlit("d");
        reveal_strlit("e");
        reveal_strlit("f");
    }
    if d < 10 {
        digit_str(d as u64)
    } else if d == 10 {
        "a"
    } else if d == 11 {
        "b"
    } else if d == 12 {
        "c"
    } else if d == 13 {
        "d"
    } else if d == 14 {
        "e"
    } else {
        "f"
    }
}

/// The lower-case hexadecimal text of `bytes`.
pub fn hex_encode(bytes: &[u8]) -> (s: String)
    ensures
        s@ == hex_text(bytes@),
{
    let mut s = String::new();
    let mut i: usize = 0;
    while i < bytes.len()
        invariant
            i <= bytes@.len(),
            s@ == hex_text(bytes@.take(i as int)),
        decreases bytes.len() - i,
    {
        let b = bytes[i];
        s.append(hex_str(b / 16));
        s.append(hex_str(b % 16));
        proof {
            let t = bytes@.take(i + 1);
            assert(t.drop_last() =~= bytes@.take(i as int));
            assert(t.last() == b);
            assert(s@ =~= hex_text(t));
        }
        i = i + 1;
    }
    proof {
        assert(bytes@.take(bytes@.len() as int) =~= bytes@);
    }
    s
}

// ---------------------------------------------------------------------------
// Laws: what each operation gives, stated without its definition
// ---------------------------------------------------------------------------

/// The digit characters are `0` to `9`, in order.
pub proof fn lemma_digit_char_codes(d: int)
    requires
        0 <= d < 10,
    ensures
        digit_char(d) as u32 == 48 + d,
{
}

/// The hex digit characters are `0` to `9`, then `a` to `f`.
pub proof fn lemma_hex_digit_codes(d: int)
    requires
        0 <= d < 16,
    ensures
        hex_digit(d) as u32 == if d < 10 { 48 + d } else { 87 + d },
{
}

/// The hex text of `b` has two characters per byte: at `2k` the digit of the
/// high half of byte `k`, at `2k + 1` the digit of its low half.
pub proof fn lemma_hex_text_positions(b: Seq<u8>)
    ensures
        hex_text(b).len() == 2 * b.len(),
        forall|k: int|
            0 <= k < b.len() ==> hex_text(b)[2 * k] == hex_digit(b[k] as int / 16) && hex_text(b)[2
                * k + 1] == hex_digit(b[k] as int % 16),
    decreases b.len(),
{
    if b.len() > 0 {
        lemma_hex_text_positions(b.drop_last());
        assert forall|k: int| 0 <= k < b.len() implies hex_text(b)[2 * k] == hex_digit(b[k] as int / 16)
            && hex_text(b)[2 * k + 1] == hex_digit(b[k] as int % 16) by {
            if k < b.len() - 1 {
                assert(b.drop_last()[k] == b[k]);
            }
        }
    }
}

/// A non-empty text without a newline is one line, kept whole.
pub proof fn lemma_lines_without_newline(s: Seq<char>)
    requires
        s.len() > 0,
        forall|k: int| 0 <= k < s.len() ==> s[k] != '\n',
    ensures
        lines(s) == seq![s],
{
    lemma_first_newline_is(s, s.len() as int);
}

/// The empty text has no line.
pub proof fn lemma_lines_empty()
    ensures
        lines(Seq::<char>::empty()) == Seq::<Seq<char>>::empty(),
{
}

/// A text cut at its first newline: its first line is what stands before the
/// newline, less a `'\r'` that ends it, and the lines after it are those of
/// what follows the newline.
pub proof fn lemma_lines_first_newline(a: Seq<char>, b: Seq<char>)
    requires
        forall|k: int| 0 <= k < a.len() ==> a[k] != '\n',
    ensures
        lines(a + seq!['\n'] + b) == seq![
            if a.len() > 0 && a[a.len() - 1] == '\r' {
                a.subrange(0, a.len() - 1)
            } else {
                a
            },
        ] + lines(b),
{
    let s = a + seq!['\n'] + b;
    assert forall|k: int| 0 <= k < a.len() implies s[k] != '\n' by {
        assert(s[k] == a[k]);
    }
    assert(s[a.len() as int] == '\n');
    lemma_first_newline_is(s, a.len() as int);
    assert(s.take(a.len() as int) =~= a);
    assert(s.skip(a.len() + 1int) =~= b);
    if a.len() > 0 && a[a.len() - 1] == '\r' {
        assert(a.drop_last() =~= a.subrange(0, a.len() - 1));
    }
}

proof fn lemma_trim_start_shape(s: Seq<char>)
    ensures
        trim_start(s).len() <= s.len(),
        trim_start(s) == s.skip(s.len() - trim_start(s).len()),
        forall|k: int| 0 <= k < s.len() - trim_start(s).len() ==> is_white_space(s[k]),
        trim_start(s).len() > 0 ==> !is_white_space(trim_start(s)[0]),
    decreases s.len(),
{
    if s.len() > 0 && is_white_space(s[0]) {
        lemma_trim_start_shape(s.drop_first());
        let t = trim_start(s);
        assert(s.drop_first().skip(s.drop_first().len() - t.len()) =~= s.skip(s.len() - t.len()));
        assert forall|k: int| 0 <= k < s.len() - t.len() implies is_white_space(s[k]) by {
            if k > 0 {
                assert(s[k] == s.drop_first()[k - 1]);
            }
        }
    } else {
        assert(s.skip(0) =~= s);
    }
}

proof fn lemma_trim_end_shape(s: Seq<char>)
    ensures
        trim_end(s).len() <= s.len(),
        trim_end(s) == s.take(trim_end(s).len() as int),
        forall|k: int| trim_end(s).len() <= k < s.len() ==> is_white_space(s[k]),
        trim_end(s).len() > 0 ==> !is_white_space(trim_end(s).last()),
    decreases s.len(),
{
    if s.len() > 0 && is_white_space(s.last()) {
        lemma_trim_end_shape(s.drop_last());
        let t = trim_end(s);
        assert(s.drop_last().take(t.len() as int) =~= s.take(t.len() as int));
        assert forall|k: int| t.len() <= k < s.len() implies is_white_space(s[k]) by {
            if k < s.len() - 1 {
                assert(s[k] == s.drop_last()[k]);
            }
        }
    } else {
        assert(s.take(s.len() as int) =~= s);
    }
}

proof fn lemma_word_len_shape(s: Seq<char>)
    ensures
        word_len(s) <= s.len(),
        forall|k: int| 0 <= k < word_len(s) ==> !is_white_space(s[k]),
        word_len(s) < s.len() ==> is_white_space(s[word_len(s) as int]),
    decreases s.len(),
{
    if s.len() > 0 && !is_white_space(s[0]) {
        lemma_word_len_shape(s.drop_first());
        assert forall|k: int| 0 <= k < word_len(s) implies !is_white_space(s[k]) by {
            if k > 0 {
                assert(s[k] == s.drop_first()[k - 1]);
            }
        }
        if word_len(s) < s.len() {
            assert(s[word_len(s) as int] == s.drop_first()[word_len(s.drop_first()) as int]);
        }
    }
}

/// Trimming keeps a contiguous part of the text, starting at `i`, and drops
/// only whitespace around it: what is kept neither starts nor ends with
/// whitespace.
pub proof fn lemma_trim_shape(s: Seq<char>) -> (i: int)
    ensures
        0 <= i,
        i + trim(s).len() <= s.len(),
        s.subrange(i, i + trim(s).len()) == trim(s),
        forall|k: int| 0 <= k < i ==> is_white_space(s[k]),
        forall|k: int| i + trim(s).len() <= k < s.len() ==> is_white_space(s[k]),
        trim(s).len() > 0 ==> !is_white_space(trim(s)[0]) && !is_white_space(trim(s).last()),
{
    lemma_trim_start_shape(s);
    let t = trim_start(s);
    let i = s.len() - t.len();
    lemma_trim_end_shape(t);
    let r = trim_end(t);
    assert(r == trim(s));
    assert(s.subrange(i, i + r.len()) =~= r);
    assert forall|k: int| i + r.len() <= k < s.len() implies is_white_space(s[k]) by {
        assert(s[k] == t[k - i]);
    }
    if r.len() > 0 {
        assert(r[0] == t[0]);
    }
    i
}

/// The first word of a text is its first maximal run of non-whitespace
/// characters, at `i`, which only whitespace precedes; a text without one
/// is all whitespace.
pub proof fn lemma_first_word_shape(s: Seq<char>) -> (i: int)
    ensures
        first_word(s) is None <==> forall|k: int| 0 <= k < s.len() ==> is_white_space(s[k]),
        first_word(s) matches Some(w) ==> {
            &&& 0 <= i
            &&& i + w.len() <= s.len()
            &&& w.len() > 0
            &&& s.subrange(i, i + w.len()) == w
            &&& forall|k: int| 0 <= k < i ==> is_white_space(s[k])
            &&& forall|k: int| 0 <= k < w.len() ==> !is_white_space(w[k])
            &&& (i + w.len() == s.len() || is_white_space(s[i + w.len()]))
        },
{
    lemma_trim_start_shape(s);
    let t = trim_start(s);
    let i = s.len() - t.len();
    if t.len() == 0 {
        assert forall|k: int| 0 <= k < s.len() implies is_white_space(s[k]) by {}
    } else {
        assert(t[0] == s[i]);
        lemma_word_len_shape(t);
        let n = word_len(t);
        let w = t.take(n as int);
        assert(n > 0);
        assert(s.subrange(i, i + n) =~= w);
        assert forall|k: int| 0 <= k < w.len() implies !is_white_space(w[k]) by {
            assert(w[k] == t[k]);
        }
        if i + n < s.len() {
            assert(s[i + n] == t[n as int]);
        }
        assert(!is_white_space(s[i]));
    }
    i
}

/// The first word of a text, or `"0"` exactly where the text is all whitespace.
pub proof fn lemma_first_word_or_zero(s: Seq<char>)
    ensures
        (forall|k: int| 0 <= k < s.len() ==> is_white_space(s[k])) ==> first_word_or_zero(s) == seq!['0'],
        first_word(s) matches Some(w) ==> first_word_or_zero(s) == w,
{
    lemma_first_word_shape(s);
}

/// A decimal numeral is made of digits only and starts with `0` only when
/// it is the numeral of zero, which is `0` alone.
pub proof fn lemma_decimal_shape(n: nat)
    ensures
        decimal(n).len() >= 1,
        forall|k: int| 0 <= k < decimal(n).len() ==> 48 <= #[trigger] (decimal(n)[k] as u32) <= 57,
        n > 0 ==> decimal(n)[0] != '0',
        decimal(0) == seq!['0'],
    decreases n,
{
    if n >= 10 {
        lemma_decimal_shape(n / 10);
        let d = decimal(n);
        assert(d == decimal(n / 10).push(digit_char((n % 10) as int)));
        assert(d[0] == decimal(n / 10)[0]);
        assert forall|k: int| 0 <= k < d.len() implies 48 <= #[trigger] (d[k] as u32) <= 57 by {
            if k < d.len() - 1 {
                assert(d[k] == decimal(n / 10)[k]);
            }
        }
    }
}

} // verus!
