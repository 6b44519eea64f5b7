//! The fuzzer runs as a `cargo fuzz run` subprocess outside this library; this
//! module says how it is called and reads what it prints: crash reports, the
//! reproducer file, and the coverage and speed figures.

use vstd::prelude::*;

use crate::config::ContractConfig;
use crate::finding::{Finding, FindingKind, FindingSeverity};
use crate::text::{
    chars_of, contains, contains_chars, copy_range, first_word_or_zero,
    first_word_range, find, find_from, hex_encode, hex_text, occurs_at, lemma_find_from, line_spans, lines, push_decimal,
    decimal, string_of_range, trim, trim_range,
};

verus! {

pub struct FuzzRunner {
    /// Absolute path to the contract workspace root.
    pub workspace_root: String,
}

/// A line of libFuzzer's output that reports a crash: a deadly signal, a
/// timeout, or a Rust panic.
pub open spec fn is_crash_line(line: Seq<char>) -> bool {
    ||| contains(line, "SUMMARY: libFuzzer: deadly signal"@)
    ||| contains(line, "SUMMARY: libFuzzer: timeout"@)
    ||| contains(line, "panicked at"@)
}

/// The crash lines among `ls`, in order.
pub open spec fn crash_lines(ls: Seq<Seq<char>>) -> Seq<Seq<char>>
    decreases ls.len(),
{
    if ls.len() == 0 {
        seq![]
    } else {
        let before = crash_lines(ls.drop_last());
        if is_crash_line(ls.last()) {
            before.push(ls.last())
        } else {
            before
        }
    }
}

/// The part of `l` after the first `p` (empty where `l` does not contain `p`).
pub open spec fn after_first(l: Seq<char>, p: Seq<char>) -> Seq<char> {
    match find_from(l, p, 0) {
        Some(i) => l.skip(i + p.len()),
        None => seq![],
    }
}

/// The first of `ls` that tells where libFuzzer wrote the crashing input,
/// without surrounding whitespace.
pub open spec fn reproducer_line(ls: Seq<Seq<char>>) -> Option<Seq<char>>
    decreases ls.len(),
{
    if ls.len() == 0 {
        None
    } else if contains(ls[0], "Test unit written to"@) {
        Some(trim(ls[0]))
    } else {
        reproducer_line(ls.drop_first())
    }
}

/// The path of the file where libFuzzer wrote the crashing input: on the
/// first of `ls` that holds `Test unit written to`, what follows that text,
/// without surrounding whitespace.
pub open spec fn reproducer_path(ls: Seq<Seq<char>>) -> Option<Seq<char>>
    decreases ls.len(),
{
    if ls.len() == 0 {
        None
    } else if contains(ls[0], "Test unit written to"@) {
        Some(trim(after_first(ls[0], "Test unit written to"@)))
    } else {
        reproducer_path(ls.drop_first())
    }
}

/// The coverage figures that follow `cov: ` in the lines of `ls` that hold it
/// (libFuzzer's stats lines), in order (`"0"` where nothing follows).
pub open spec fn coverage_words(ls: Seq<Seq<char>>) -> Seq<Seq<char>>
    decreases ls.len(),
{
    if ls.len() == 0 {
        seq![]
    } else {
        let before = coverage_words(ls.drop_last());
        let l = ls.last();
        if contains(l, "cov: "@) {
            before.push(first_word_or_zero(after_first(l, "cov: "@)))
        } else {
            before
        }
    }
}

/// The part of `l` after the first `p` and before the next one (as
/// `l.split(p).nth(1)` where `l` contains `p`).
pub open spec fn second_piece(l: Seq<char>, p: Seq<char>) -> Seq<char> {
    match find_from(l, p, 0) {
        Some(i) => match find_from(l, p, i + p.len()) {
            Some(j) => l.subrange(i + p.len(), j),
            None => l.skip(i + p.len()),
        },
        None => seq![],
    }
}

/// The speed figures that follow `exec/s:` in the lines of `ls` that hold it,
/// in order (`"0"` where nothing follows).
pub open spec fn execs_words(ls: Seq<Seq<char>>) -> Seq<Seq<char>>
    decreases ls.len(),
{
    if ls.len() == 0 {
        seq![]
    } else {
        let before = execs_words(ls.drop_last());
        let l = ls.last();
        if contains(l, "exec/s:"@) {
            before.push(first_word_or_zero(second_piece(l, "exec/s:"@)))
        } else {
            before
        }
    }
}

/// The part after the first `p` in a line that holds `p`: what follows the
/// earliest place `i` where `p` stands.
pub proof fn lemma_after_first_shape(l: Seq<char>, p: Seq<char>) -> (i: int)
    requires
        contains(l, p),
    ensures
        occurs_at(l, p, i),
        forall|k: int| 0 <= k < i ==> !occurs_at(l, p, k),
        after_first(l, p) == l.skip(i + p.len()),
{
    lemma_find_from(l, p, 0);
    let w = choose|i: int| occurs_at(l, p, i);
    match find_from(l, p, 0) {
        Some(i) => i,
        None => {
            assert(!occurs_at(l, p, w));
            0
        },
    }
}

/// The part between the first `p` and the next in a line that holds `p`: it
/// starts where the earliest `p` (at `i`) ends and stops at `e`, where the
/// next `p` (not overlapping it) starts, or at the end of the line where
/// there is none.
pub proof fn lemma_second_piece_shape(l: Seq<char>, p: Seq<char>) -> (ie: (int, int))
    requires
        contains(l, p),
    ensures
        occurs_at(l, p, ie.0),
        forall|k: int| 0 <= k < ie.0 ==> !occurs_at(l, p, k),
        ie.0 + p.len() <= ie.1 <= l.len(),
        forall|k: int| ie.0 + p.len() <= k < ie.1 ==> !occurs_at(l, p, k),
        ie.1 == l.len() || occurs_at(l, p, ie.1),
        second_piece(l, p) == l.subrange(ie.0 + p.len(), ie.1),
{
    let i = lemma_after_first_shape(l, p);
    lemma_find_from(l, p, 0);
    assert(find_from(l, p, 0) == Some(i));
    let start = i + p.len();
    lemma_find_from(l, p, start);
    match find_from(l, p, start) {
        Some(j) => (i, j),
        None => {
            assert(l.skip(start) =~= l.subrange(start, l.len() as int));
            (i, l.len() as int)
        },
    }
}

/// The reproducer line of a text is found on its first line that holds
/// `Test unit written to`, kept whole but trimmed; the reproducer file is
/// what follows that text on the same line, trimmed; a text without such a
/// line has neither.
pub proof fn lemma_reproducer_first_line(l: Seq<char>, rest: Seq<Seq<char>>)
    ensures
        reproducer_line(Seq::<Seq<char>>::empty()) is None,
        reproducer_path(Seq::<Seq<char>>::empty()) is None,
        contains(l, "Test unit written to"@) ==> reproducer_line(seq![l] + rest) == Some(trim(l))
            && reproducer_path(seq![l] + rest) == Some(trim(after_first(l, "Test unit written to"@))),
        !contains(l, "Test unit written to"@) ==> reproducer_line(seq![l] + rest) == reproducer_line(rest)
            && reproducer_path(seq![l] + rest) == reproducer_path(rest),
{
    let s = seq![l] + rest;
    assert(s[0] == l);
    assert(s.drop_first() =~= rest);
}

/// The crash findings of one line, for every line: a line that holds
/// `SUMMARY: libFuzzer: deadly signal`, `SUMMARY: libFuzzer: timeout` or
/// `panicked at` is one crash, and any other line (such as libFuzzer's
/// `==N== ERROR: libFuzzer: timeout after ...` report) is none.
pub proof fn lemma_crash_lines_of_one_line(l: Seq<char>)
    ensures
        (contains(l, "SUMMARY: libFuzzer: deadly signal"@) || contains(l, "SUMMARY: libFuzzer: timeout"@)
            || contains(l, "panicked at"@)) ==> crash_lines(seq![l]) == seq![l],
        !(contains(l, "SUMMARY: libFuzzer: deadly signal"@) || contains(l, "SUMMARY: libFuzzer: timeout"@)
            || contains(l, "panicked at"@)) ==> crash_lines(seq![l]) == Seq::<Seq<char>>::empty(),
{
    let one = seq![l];
    assert(one.drop_last() =~= Seq::<Seq<char>>::empty());
    assert(one.last() == l);
    assert(crash_lines(Seq::<Seq<char>>::empty()) == Seq::<Seq<char>>::empty());
    assert(crash_lines(one) == if is_crash_line(l) {
        crash_lines(one.drop_last()).push(l)
    } else {
        crash_lines(one.drop_last())
    });
    assert(Seq::<Seq<char>>::empty().push(l) =~= seq![l]);
}

/// The crash lines of a text made of two parts are those of the first part
/// followed by those of the second: each line is judged on its own.
pub proof fn lemma_crash_lines_concat(a: Seq<Seq<char>>, b: Seq<Seq<char>>)
    ensures
        crash_lines(a + b) == crash_lines(a) + crash_lines(b),
    decreases b.len(),
{
    if b.len() == 0 {
        assert(a + b =~= a);
        assert(crash_lines(a) + crash_lines(b) =~= crash_lines(a));
    } else {
        lemma_crash_lines_concat(a, b.drop_last());
        assert((a + b).drop_last() =~= a + b.drop_last());
        assert((a + b).last() == b.last());
        if is_crash_line(b.last()) {
            assert(crash_lines(a) + crash_lines(b) =~= (crash_lines(a) + crash_lines(b.drop_last())).push(
                b.last(),
            ));
        }
    }
}

/// The coverage figures of one line, for every line: a line that holds
/// `cov: `, whatever else it holds (an `INITED`, `pulse` or `DONE` stats
/// line alike), gives exactly one figure, the first word after its first
/// `cov: ` (or `"0"`); a line without `cov: ` gives none.
pub proof fn lemma_coverage_words_of_one_line(l: Seq<char>)
    ensures
        contains(l, "cov: "@) ==> coverage_words(seq![l]) == seq![first_word_or_zero(after_first(l, "cov: "@))],
        !contains(l, "cov: "@) ==> coverage_words(seq![l]) == Seq::<Seq<char>>::empty(),
{
    let one = seq![l];
    assert(one.drop_last() =~= Seq::<Seq<char>>::empty());
    assert(one.last() == l);
    assert(coverage_words(Seq::<Seq<char>>::empty()) == Seq::<Seq<char>>::empty());
    assert(coverage_words(one) == if contains(l, "cov: "@) {
        coverage_words(one.drop_last()).push(first_word_or_zero(after_first(l, "cov: "@)))
    } else {
        coverage_words(one.drop_last())
    });
    assert(Seq::<Seq<char>>::empty().push(first_word_or_zero(after_first(l, "cov: "@))) =~= seq![
        first_word_or_zero(after_first(l, "cov: "@)),
    ]);
}

/// The coverage figures of a text made of two parts are those of the first
/// part followed by those of the second.
pub proof fn lemma_coverage_words_concat(a: Seq<Seq<char>>, b: Seq<Seq<char>>)
    ensures
        coverage_words(a + b) == coverage_words(a) + coverage_words(b),
    decreases b.len(),
{
    if b.len() == 0 {
        assert(a + b =~= a);
        assert(coverage_words(a) + coverage_words(b) =~= coverage_words(a));
    } else {
        lemma_coverage_words_concat(a, b.drop_last());
        assert((a + b).drop_last() =~= a + b.drop_last());
        assert((a + b).last() == b.last());
        let l = b.last();
        if contains(l, "cov: "@) {
            assert(coverage_words(a) + coverage_words(b) =~= (coverage_words(a) + coverage_words(
                b.drop_last(),
            )).push(first_word_or_zero(after_first(l, "cov: "@))));
        }
    }
}

/// The speed figures of one line, for every line: a line that holds
/// `exec/s:`, whatever else it holds (an `INITED` stats line too), gives
/// exactly one figure, the first word of what follows its first `exec/s:`
/// up to the next (or `"0"`); a line without `exec/s:` gives none.
pub proof fn lemma_execs_words_of_one_line(l: Seq<char>)
    ensures
        contains(l, "exec/s:"@) ==> execs_words(seq![l]) == seq![first_word_or_zero(second_piece(l, "exec/s:"@))],
        !contains(l, "exec/s:"@) ==> execs_words(seq![l]) == Seq::<Seq<char>>::empty(),
{
    let one = seq![l];
    assert(one.drop_last() =~= Seq::<Seq<char>>::empty());
    assert(one.last() == l);
    assert(execs_words(Seq::<Seq<char>>::empty()) == Seq::<Seq<char>>::empty());
    assert(execs_words(one) == if contains(l, "exec/s:"@) {
        execs_words(one.drop_last()).push(first_word_or_zero(second_piece(l, "exec/s:"@)))
    } else {
        execs_words(one.drop_last())
    });
    assert(Seq::<Seq<char>>::empty().push(first_word_or_zero(second_piece(l, "exec/s:"@))) =~= seq![
        first_word_or_zero(second_piece(l, "exec/s:"@)),
    ]);
}

/// The speed figures of a text made of two parts are those of the first part
/// followed by those of the second.
pub proof fn lemma_execs_words_concat(a: Seq<Seq<char>>, b: Seq<Seq<char>>)
    ensures
        execs_words(a + b) == execs_words(a) + execs_words(b),
    decreases b.len(),
{
    if b.len() == 0 {
        assert(a + b =~= a);
        assert(execs_words(a) + execs_words(b) =~= execs_words(a));
    } else {
        lemma_execs_words_concat(a, b.drop_last());
        assert((a + b).drop_last() =~= a + b.drop_last());
        assert((a + b).last() == b.last());
        let l = b.last();
        if contains(l, "exec/s:"@) {
            assert(execs_words(a) + execs_words(b) =~= (execs_words(a) + execs_words(b.drop_last())).push(
                first_word_or_zero(second_piece(l, "exec/s:"@)),
            ));
        }
    }
}

/// The fuzz target name of a contract: its name with each `-` made `_`.
pub open spec fn target_name(name: Seq<char>) -> Seq<char> {
    name.map_values(|c: char| if c == '-' { '_' } else { c })
}

/// A fuzz target name holds no `-`, keeps the length of the contract name,
/// and naming a target name again changes nothing.
pub proof fn lemma_target_name_well_formed(name: Seq<char>)
    ensures
        target_name(name).len() == name.len(),
        forall|i: int| 0 <= i < name.len() ==> #[trigger] target_name(name)[i] != '-',
        target_name(target_name(name)) == target_name(name),
{
    assert(target_name(target_name(name)) =~= target_name(name));
}

/// The fuzz target name of a contract: its name with each `-` made `_`.
pub fn fuzz_target_name(name: &str) -> (t: String)
    ensures
        t@ == target_name(name@),
{
    let n = name.unicode_len();
    let mut t = String::new();
    let mut i: usize = 0;
    while i < n
        invariant
            n == name@.len(),
            i <= n,
            t@ == target_name(name@.take(i as int)),
        decreases n - i,
    {
        let c = name.get_char(i);
        proof {
            reveal_strlit("_");
            assert(name@.subrange(i as int, i + 1) =~= seq![c]);
        }
        if c == '-' {
            t.append("_");
        } else {
            t.append(name.substring_char(i, i + 1));
        }
        proof {
            assert(target_name(name@.take(i + 1)) =~= target_name(name@.take(i as int)).push(
                if c == '-' { '_' } else { c },
            ));
            assert(t@ =~= target_name(name@.take(i + 1)));
        }
        i = i + 1;
    }
    proof {
        assert(name@.take(n as int) =~= name@);
    }
    t
}

/// The file name of the fuzz harness of a contract: its target name and `.rs`.
pub fn harness_file_name(name: &str) -> (f: String)
    ensures
        f@ == target_name(name@) + ".rs"@,
{
    let mut f = fuzz_target_name(name);
    f.append(".rs");
    f
}

fn copy_option(o: &Option<String>) -> (c: Option<String>)
    ensures
        c == *o,
{
    match o {
        Some(s) => Some(s.clone()),
        None => None,
    }
}

/// Where `p` ends on its first occurrence in `line`, where `line` contains `p`.
fn after_first_start(line: &Vec<char>, p: &Vec<char>) -> (r: Option<usize>)
    ensures
        match r {
            Some(a) => {
                &&& contains(line@, p@)
                &&& a <= line@.len()
                &&& line@.skip(a as int) == after_first(line@, p@)
            },
            None => !contains(line@, p@),
        },
{
    proof {
        lemma_find_from(line@, p@, 0);
    }
    match find(line, p, 0) {
        None => None,
        Some(i) => {
            assert(occurs_at(line@, p@, i as int));
            assert(i + p@.len() <= line@.len());
            assert(line@.len() == line.len());
            Some(i + p.len())
        },
    }
}

/// The first line of `stderr` that tells where libFuzzer wrote the crashing
/// input (the first that holds `Test unit written to`), trimmed; `None` where
/// there is no such line.
#[verifier::rlimit(30)]
pub fn extract_reproducer(stderr: &str) -> (r: Option<String>)
    ensures
        match r {
            Some(s) => reproducer_line(lines(stderr@)) == Some(s@),
            None => reproducer_line(lines(stderr@)) is None,
        },
{
    let chars = chars_of(stderr);
    let spans = line_spans(&chars);
    let pattern = chars_of("Test unit written to");
    let ghost ls = lines(stderr@);
    let mut k: usize = 0;
    proof {
        assert(ls.skip(0) =~= ls);
    }
    while k < spans.len()
        invariant
            chars@ == stderr@,
            ls == lines(stderr@),
            pattern@ == "Test unit written to"@,
            spans@.len() == ls.len(),
            forall|m: int|
                #![trigger spans@[m]]
                0 <= m < spans@.len() ==> {
                    &&& spans@[m].0 <= spans@[m].1
                    &&& spans@[m].1 <= chars@.len()
                    &&& chars@.subrange(spans@[m].0 as int, spans@[m].1 as int) == ls[m]
                },
            k <= spans@.len(),
            reproducer_line(ls) == reproducer_line(ls.skip(k as int)),
        decreases spans.len() - k,
    {
        let (a, b) = spans[k];
        let line = copy_range(&chars, a, b);
        assert(ls.skip(k as int)[0] == ls[k as int]);
        if contains_chars(&line, &pattern) {
            let (ta, tb) = trim_range(&chars, a, b);
            return Some(string_of_range(stderr, ta, tb));
        }
        assert(ls.skip(k as int).drop_first() =~= ls.skip(k + 1));
        k = k + 1;
    }
    None
}

/// The path of the file where libFuzzer wrote the crashing input, as the
/// first line of `stderr` that holds `Test unit written to` names it: what
/// follows that text, trimmed; `None` where there is no such line. The bytes
/// of that file are the reproducer of the run's crash findings.
#[verifier::rlimit(30)]
pub fn reproducer_file(stderr: &str) -> (r: Option<String>)
    ensures
        match r {
            Some(s) => reproducer_path(lines(stderr@)) == Some(s@),
            None => reproducer_path(lines(stderr@)) is None,
        },
{
    let chars = chars_of(stderr);
    let spans = line_spans(&chars);
    let pattern = chars_of("Test unit written to");
    let ghost ls = lines(stderr@);
    let mut k: usize = 0;
    proof {
        assert(ls.skip(0) =~= ls);
    }
    while k < spans.len()
        invariant
            chars@ == stderr@,
            ls == lines(stderr@),
            pattern@ == "Test unit written to"@,
            spans@.len() == ls.len(),
            forall|m: int|
                #![trigger spans@[m]]
                0 <= m < spans@.len() ==> {
                    &&& spans@[m].0 <= spans@[m].1
                    &&& spans@[m].1 <= chars@.len()
                    &&& chars@.subrange(spans@[m].0 as int, spans@[m].1 as int) == ls[m]
                },
            k <= spans@.len(),
            reproducer_path(ls) == reproducer_path(ls.skip(k as int)),
        decreases spans.len() - k,
    {
        let (a, b) = spans[k];
        let line = copy_range(&chars, a, b);
        assert(ls.skip(k as int)[0] == ls[k as int]);
        if let Some(start) = after_first_start(&line, &pattern) {
            let (ta, tb) = trim_range(&chars, a + start, b);
            proof {
                assert(chars@.subrange(a + start, b as int) =~= line@.skip(start as int));
            }
            return Some(string_of_range(stderr, ta, tb));
        }
        assert(ls.skip(k as int).drop_first() =~= ls.skip(k + 1));
        k = k + 1;
    }
    None
}

/// The first whitespace-separated word of `chars[from..to]`, or `"0"` where there is none.
fn word_or_zero(s: &str, chars: &Vec<char>, from: usize, to: usize) -> (w: String)
    requires
        chars@ == s@,
        from <= to <= chars@.len(),
    ensures
        w@ == first_word_or_zero(chars@.subrange(from as int, to as int)),
{
    match first_word_range(chars, from, to) {
        Some((a, b)) => string_of_range(s, a, b),
        None => {
            proof {
                reveal_strlit("0");
            }
            String::from_str("0")
        },
    }
}

/// The coverage figures that libFuzzer printed after `cov: ` on its stats
/// lines, in order, as text: for each line of `stderr` that holds `cov: `,
/// the first word after its first occurrence, or `"0"` where there is none.
pub fn coverage_candidates(stderr: &str) -> (words: Vec<String>)
    ensures
        words@.len() == coverage_words(lines(stderr@)).len(),
        forall|k: int|
            #![trigger words@[k]]
            0 <= k < words@.len() ==> words@[k]@ == coverage_words(lines(stderr@))[k],
{
    let chars = chars_of(stderr);
    let spans = line_spans(&chars);
    let prefix = chars_of("cov: ");
    let ghost ls = lines(stderr@);
    let mut words: Vec<String> = Vec::new();
    let mut k: usize = 0;
    while k < spans.len()
        invariant
            chars@ == stderr@,
            ls == lines(stderr@),
            prefix@ == "cov: "@,
            spans@.len() == ls.len(),
            forall|m: int|
                #![trigger spans@[m]]
                0 <= m < spans@.len() ==> {
                    &&& spans@[m].0 <= spans@[m].1
                    &&& spans@[m].1 <= chars@.len()
                    &&& chars@.subrange(spans@[m].0 as int, spans@[m].1 as int) == ls[m]
                },
            k <= spans@.len(),
            words@.len() == coverage_words(ls.take(k as int)).len(),
            forall|m: int|
                #![trigger words@[m]]
                0 <= m < words@.len() ==> words@[m]@ == coverage_words(ls.take(k as int))[m],
        decreases spans.len() - k,
    {
        let (a, b) = spans[k];
        let line = copy_range(&chars, a, b);
        let ghost before = coverage_words(ls.take(k as int));
        proof {
            assert(ls.take(k + 1).drop_last() =~= ls.take(k as int));
            assert(ls.take(k + 1).last() == ls[k as int]);
        }
        if let Some(start) = after_first_start(&line, &prefix) {
            let w = word_or_zero(stderr, &chars, a + start, b);
            proof {
                assert(chars@.subrange(a + start, b as int) =~= line@.skip(start as int));
            }
            let ghost old_words = words@;
            words.push(w);
            proof {
                assert(coverage_words(ls.take(k + 1)) == before.push(w@));
                assert forall|m: int| #![trigger words@[m]] 0 <= m < words@.len() implies words@[m]@
                    == coverage_words(ls.take(k + 1))[m] by {
                    if m < old_words.len() {
                        assert(words@[m] == old_words[m]);
                    }
                }
            }
        } else {
            proof {
                assert(coverage_words(ls.take(k + 1)) == before);
            }
        }
        k = k + 1;
    }
    proof {
        assert(ls.take(spans@.len() as int) =~= ls);
    }
    words
}

/// The part of `line` after the first `p` and before the next one, as a range
/// of `line`, where `line` contains `p`.
fn second_piece_range(line: &Vec<char>, p: &Vec<char>) -> (r: Option<(usize, usize)>)
    ensures
        match r {
            Some((a, b)) => {
                &&& contains(line@, p@)
                &&& a <= b <= line@.len()
                &&& line@.subrange(a as int, b as int) == second_piece(line@, p@)
            },
            None => !contains(line@, p@),
        },
{
    proof {
        lemma_find_from(line@, p@, 0);
    }
    match find(line, p, 0) {
        None => None,
        Some(i) => {
            assert(occurs_at(line@, p@, i as int));
            assert(i + p@.len() <= line@.len());
            assert(line@.len() == line.len());
            let start = i + p.len();
            proof {
                lemma_find_from(line@, p@, start as int);
            }
            match find(line, p, start) {
                Some(j) => Some((start, j)),
                None => {
                    proof {
                        assert(line@.subrange(start as int, line@.len() as int) =~= line@.skip(
                            start as int,
                        ));
                    }
                    Some((start, line.len()))
                },
            }
        },
    }
}

/// The speed figures that libFuzzer printed after `exec/s:`, in order, as
/// text: for each line of `stderr` that holds `exec/s:`, the first word of
/// the part after it (up to a further `exec/s:`), or `"0"` where there is none.
pub fn execs_candidates(stderr: &str) -> (words: Vec<String>)
    ensures
        words@.len() == execs_words(lines(stderr@)).len(),
        forall|k: int|
            #![trigger words@[k]]
            0 <= k < words@.len() ==> words@[k]@ == execs_words(lines(stderr@))[k],
{
    let chars = chars_of(stderr);
    let spans = line_spans(&chars);
    let marker = chars_of("exec/s:");
    let ghost ls = lines(stderr@);
    let mut words: Vec<String> = Vec::new();
    let mut k: usize = 0;
    while k < spans.len()
        invariant
            chars@ == stderr@,
            ls == lines(stderr@),
            marker@ == "exec/s:"@,
            spans@.len() == ls.len(),
            forall|m: int|
                #![trigger spans@[m]]
                0 <= m < spans@.len() ==> {
                    &&& spans@[m].0 <= spans@[m].1
                    &&& spans@[m].1 <= chars@.len()
                    &&& chars@.subrange(spans@[m].0 as int, spans@[m].1 as int) == ls[m]
                },
            k <= spans@.len(),
            words@.len() == execs_words(ls.take(k as int)).len(),
            forall|m: int|
                #![trigger words@[m]]
                0 <= m < words@.len() ==> words@[m]@ == execs_words(ls.take(k as int))[m],
        decreases spans.len() - k,
    {
        let (a, b) = spans[k];
        let line = copy_range(&chars, a, b);
        let ghost before = execs_words(ls.take(k as int));
        proof {
            assert(ls.take(k + 1).drop_last() =~= ls.take(k as int));
            assert(ls.take(k + 1).last() == ls[k as int]);
        }
        match second_piece_range(&line, &marker) {
            Some((pa, pb)) => {
                let w = word_or_zero(stderr, &chars, a + pa, a + pb);
                proof {
                    assert(chars@.subrange(a + pa, a + pb) =~= line@.subrange(pa as int, pb as int));
                }
                let ghost old_words = words@;
                words.push(w);
                proof {
                    assert(execs_words(ls.take(k + 1)) == before.push(w@));
                    assert forall|m: int| #![trigger words@[m]] 0 <= m < words@.len() implies words@[m]@
                        == execs_words(ls.take(k + 1))[m] by {
                        if m < old_words.len() {
                            assert(words@[m] == old_words[m]);
                        }
                    }
                }
            },
            None => {
                proof {
                    assert(execs_words(ls.take(k + 1)) == before);
                }
            },
        }
        k = k + 1;
    }
    proof {
        assert(ls.take(spans@.len() as int) =~= ls);
    }
    words
}

impl FuzzRunner {
    pub fn new(workspace_root: String) -> (r: FuzzRunner)
        ensures
            r.workspace_root == workspace_root,
    {
        FuzzRunner { workspace_root }
    }

    /// The arguments of the `cargo` call that fuzzes `contract`:
    /// `fuzz run <target> -- -max_total_time=<timeout> -print_final_stats=1`.
    pub fn fuzz_args(contract: &ContractConfig) -> (args: Vec<String>)
        ensures
            args@.len() == 6,
            args@[0]@ == "fuzz"@,
            args@[1]@ == "run"@,
            args@[2]@ == target_name(contract.name@),
            args@[3]@ == "--"@,
            args@[4]@ == "-max_total_time="@ + decimal(contract.fuzz_timeout_secs as nat),
            args@[5]@ == "-print_final_stats=1"@,
    {
        let mut limit = String::from_str("-max_total_time=");
        push_decimal(&mut limit, contract.fuzz_timeout_secs);
        let mut args: Vec<String> = Vec::new();
        args.push(String::from_str("fuzz"));
        args.push(String::from_str("run"));
        args.push(fuzz_target_name(contract.name.as_str()));
        args.push(String::from_str("--"));
        args.push(limit);
        args.push(String::from_str("-print_final_stats=1"));
        args
    }

    /// How long, in seconds, the fuzzer of `contract` may run before it is
    /// stopped: its time budget and half a minute of grace.
    pub fn deadline_secs(contract: &ContractConfig) -> (secs: u64)
        requires
            contract.fuzz_timeout_secs + 30 <= u64::MAX,
        ensures
            secs == contract.fuzz_timeout_secs + 30,
    {
        contract.fuzz_timeout_secs + 30
    }

    /// Parse libFuzzer's `stderr` for crash reports and turn each into a
    /// finding: one high-severity fuzz crash of `contract` for each crash line,
    /// in order, described as `libFuzzer crash: ` and the trimmed line. The
    /// reproducer is the hex encoding of `crash_input`, the bytes of the
    /// crashing input that libFuzzer wrote to the file that
    /// `reproducer_file(stderr)` names; none where those bytes are not at hand.
    pub fn parse_crashes(
        &self,
        run_id: u128,
        contract: &ContractConfig,
        stderr: &str,
        crash_input: Option<&[u8]>,
    ) -> (findings: Vec<Finding>)
        ensures
            findings@.len() == crash_lines(lines(stderr@)).len(),
            forall|k: int|
                #![trigger findings@[k]]
                0 <= k < findings@.len() ==> {
                    &&& findings@[k].run_id == run_id
                    &&& findings@[k].contract_name@ == contract.name@
                    &&& findings@[k].kind == FindingKind::FuzzCrash
                    &&& findings@[k].severity == FindingSeverity::High
                    &&& findings@[k].description@ == "libFuzzer crash: "@ + trim(
                        crash_lines(lines(stderr@))[k],
                    )
                    &&& match crash_input {
                        Some(b) => findings@[k].reproducer matches Some(x) && x@ == hex_text(b@),
                        None => findings@[k].reproducer is None,
                    }
                },
    {
        let reproducer: Option<String> = match crash_input {
            Some(b) => Some(hex_encode(b)),
            None => None,
        };
        let chars = chars_of(stderr);
        let spans = line_spans(&chars);
        let signal = chars_of("SUMMARY: libFuzzer: deadly signal");
        let timeout = chars_of("SUMMARY: libFuzzer: timeout");
        let panic = chars_of("panicked at");
        let ghost ls = lines(stderr@);
        let mut findings: Vec<Finding> = Vec::new();
        let mut k: usize = 0;
        while k < spans.len()
            invariant
                chars@ == stderr@,
                ls == lines(stderr@),
                signal@ == "SUMMARY: libFuzzer: deadly signal"@,
                timeout@ == "SUMMARY: libFuzzer: timeout"@,
                panic@ == "panicked at"@,
                match crash_input {
                    Some(b) => reproducer matches Some(s) && s@ == hex_text(b@),
                    None => reproducer is None,
                },
                spans@.len() == ls.len(),
                forall|m: int|
                    #![trigger spans@[m]]
                    0 <= m < spans@.len() ==> {
                        &&& spans@[m].0 <= spans@[m].1
                        &&& spans@[m].1 <= chars@.len()
                        &&& chars@.subrange(spans@[m].0 as int, spans@[m].1 as int) == ls[m]
                    },
                k <= spans@.len(),
                findings@.len() == crash_lines(ls.take(k as int)).len(),
                forall|m: int|
                    #![trigger findings@[m]]
                    0 <= m < findings@.len() ==> {
                        &&& findings@[m].run_id == run_id
                        &&& findings@[m].contract_name@ == contract.name@
                        &&& findings@[m].kind == FindingKind::FuzzCrash
                        &&& findings@[m].severity == FindingSeverity::High
                        &&& findings@[m].description@ == "libFuzzer crash: "@ + trim(
                            crash_lines(ls.take(k as int))[m],
                        )
                        &&& match crash_input {
                            Some(b) => findings@[m].reproducer matches Some(x) && x@ == hex_text(b@),
                            None => findings@[m].reproducer is None,
                        }
                    },
            decreases spans.len() - k,
        {
            let (a, b) = spans[k];
            let line = copy_range(&chars, a, b);
            let ghost before = crash_lines(ls.take(k as int));
            proof {
                assert(ls.take(k + 1).drop_last() =~= ls.take(k as int));
                assert(ls.take(k + 1).last() == ls[k as int]);
            }
            if contains_chars(&line, &signal) || contains_chars(&line, &timeout) || contains_chars(
                &line,
                &panic,
            ) {
                let (ta, tb) = trim_range(&chars, a, b);
                let mut description = String::from_str("libFuzzer crash: ");
                let trimmed = string_of_range(stderr, ta, tb);
                description.append(trimmed.as_str());
                let ghost old_findings = findings@;
                findings.push(
                    Finding::new(
                        run_id,
                        contract.name.clone(),
                        FindingKind::FuzzCrash,
                        FindingSeverity::High,
                        description,
                        copy_option(&reproducer),
                    ),
                );
                proof {
                    assert(crash_lines(ls.take(k + 1)) == before.push(ls[k as int]));
                    assert forall|m: int| #![trigger findings@[m]] 0 <= m < findings@.len() implies {
                        &&& findings@[m].run_id == run_id
                        &&& findings@[m].contract_name@ == contract.name@
                        &&& findings@[m].kind == FindingKind::FuzzCrash
                        &&& findings@[m].severity == FindingSeverity::High
                        &&& findings@[m].description@ == "libFuzzer crash: "@ + trim(
                            crash_lines(ls.take(k + 1))[m],
                        )
                        &&& match crash_input {
                            Some(b) => findings@[m].reproducer matches Some(x) && x@ == hex_text(b@),
                            None => findings@[m].reproducer is None,
                        }
                    } by {
                        if m < old_findings.len() {
                            assert(findings@[m] == old_findings[m]);
                        }
                    }
                }
            } else {
                proof {
                    assert(crash_lines(ls.take(k + 1)) == before);
                }
            }
            k = k + 1;
        }
        proof {
            assert(ls.take(spans@.len() as int) =~= ls);
        }
        findings
    }
}

} // verus!
