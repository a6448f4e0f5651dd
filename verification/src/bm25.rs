//! Search terms: the tokenizer and per-field term statistics of the BM25F index.

use vstd::prelude::*;
use crate::text::{chars_of, string_of, string_of_range, views};

verus! {

/// What `str::to_lowercase` makes of a character sequence (Unicode lowercase mapping).
pub uninterp spec fn lowercase_chars(s: Seq<char>) -> Seq<char>;

/// Whether `char::is_alphanumeric` holds of `c` (Unicode Alphabetic or Numeric).
pub uninterp spec fn unicode_alphanumeric(c: char) -> bool;

/// `str::to_lowercase`: the result is the Unicode lowercase mapping of `s`, named
/// `lowercase_chars`; its tables are not restated here.
#[verifier::external_body]
pub(crate) fn lowercase(s: &str) -> (out: String)
    ensures
        out@ == lowercase_chars(s@),
{
    s.to_lowercase()
}

/// `char::is_alphanumeric`: the result is named `unicode_alphanumeric`.
#[verifier::external_body]
fn is_alphanumeric(c: char) -> (b: bool)
    ensures
        b == unicode_alphanumeric(c),
{
    c.is_alphanumeric()
}

/// ASCII letters and digits.
pub open spec fn ascii_alphanumeric(c: char) -> bool {
    ('0' <= c && c <= '9') || ('a' <= c && c <= 'z') || ('A' <= c && c <= 'Z')
}

pub(crate) fn is_ascii_alphanumeric(c: char) -> (b: bool)
    ensures
        b == ascii_alphanumeric(c),
{
    ('0' <= c && c <= '9') || ('a' <= c && c <= 'z') || ('A' <= c && c <= 'Z')
}

/// All windows of exactly `width` consecutive characters of `u`, left to right.
pub open spec fn windows(u: Seq<char>, width: nat) -> Seq<Seq<char>> {
    if width > 0 && u.len() >= width {
        Seq::new((u.len() - width + 1) as nat, |i: int| u.subrange(i, i + width))
    } else {
        Seq::empty()
    }
}

/// Emitting the pending buffers: the ASCII word, if any, then every 1-, 2- and
/// 3-character window of the pending non-ASCII run.
pub open spec fn flushed(out: Seq<Seq<char>>, ascii: Seq<char>, uni: Seq<char>) -> Seq<Seq<char>> {
    out + (if ascii.len() > 0 { seq![ascii] } else { Seq::empty() }) + windows(uni, 1)
        + windows(uni, 2) + windows(uni, 3)
}

/// Tokenizer state after reading `chars`: (emitted tokens, ASCII word, non-ASCII run).
pub open spec fn scan(chars: Seq<char>) -> (Seq<Seq<char>>, Seq<char>, Seq<char>)
    decreases chars.len(),
{
    if chars.len() == 0 {
        (Seq::empty(), Seq::empty(), Seq::empty())
    } else {
        let (out, ascii, uni) = scan(chars.drop_last());
        let c = chars.last();
        if ascii_alphanumeric(c) {
            if uni.len() > 0 {
                (flushed(out, ascii, uni), seq![c], Seq::empty())
            } else {
                (out, ascii.push(c), uni)
            }
        } else if unicode_alphanumeric(c) {
            if ascii.len() > 0 {
                (flushed(out, ascii, uni), Seq::empty(), seq![c])
            } else {
                (out, ascii, uni.push(c))
            }
        } else {
            (flushed(out, ascii, uni), Seq::empty(), Seq::empty())
        }
    }
}

/// The tokens of already-lowercased characters.
pub open spec fn tokens_of(chars: Seq<char>) -> Seq<Seq<char>> {
    let (out, ascii, uni) = scan(chars);
    flushed(out, ascii, uni)
}

/// The search terms of `value`: lowercase ASCII words, and the 1-, 2- and
/// 3-character n-grams of every run of other alphanumeric characters.
pub open spec fn spec_tokenize(value: Seq<char>) -> Seq<Seq<char>> {
    tokens_of(lowercase_chars(value))
}

proof fn lemma_scan_ascii(s: Seq<char>)
    requires
        s.len() > 0,
        forall|i: int| 0 <= i < s.len() ==> ascii_alphanumeric(#[trigger] s[i]),
    ensures
        scan(s) == (Seq::<Seq<char>>::empty(), s, Seq::<char>::empty()),
    decreases s.len(),
{
    let p = s.drop_last();
    if p.len() > 0 {
        assert forall|i: int| 0 <= i < p.len() implies ascii_alphanumeric(#[trigger] p[i]) by {
            assert(p[i] == s[i]);
        }
        lemma_scan_ascii(p);
    } else {
        assert(p =~= Seq::<char>::empty());
        assert(scan(p) == (Seq::<Seq<char>>::empty(), Seq::<char>::empty(), Seq::<char>::empty()));
    }
    assert(ascii_alphanumeric(s[s.len() - 1]));
    assert(scan(p).1.push(s.last()) =~= s);
    assert(scan(s) == (scan(p).0, scan(p).1.push(s.last()), scan(p).2));
}

proof fn lemma_scan_after_reset(p: Seq<char>, b: Seq<char>, o: Seq<Seq<char>>)
    requires
        scan(p) == (o, Seq::<char>::empty(), Seq::<char>::empty()),
    ensures
        scan(p + b) == (o + scan(b).0, scan(b).1, scan(b).2),
    decreases b.len(),
{
    if b.len() == 0 {
        assert(p + b =~= p);
        assert(o + Seq::<Seq<char>>::empty() =~= o);
    } else {
        let bp = b.drop_last();
        lemma_scan_after_reset(p, bp, o);
        assert((p + b).drop_last() =~= p + bp);
        assert((p + b).last() == b.last());
        let (o2, a2, u2) = scan(bp);
        let c = b.last();
        assert forall|x: Seq<char>, y: Seq<char>| #[trigger] flushed(o + o2, x, y) == o + flushed(o2, x, y) by {
            assert(flushed(o + o2, x, y) =~= o + flushed(o2, x, y));
        }
    }
}

/// In already-lowercased text, a nonempty run made only of ASCII letters and
/// digits is exactly one token: itself.
pub proof fn ascii_words_are_single_tokens(s: Seq<char>)
    requires
        s.len() > 0,
        forall|i: int| 0 <= i < s.len() ==> ascii_alphanumeric(#[trigger] s[i]),
    ensures
        tokens_of(s) == seq![s],
{
    lemma_scan_ascii(s);
    assert(windows(Seq::<char>::empty(), 1) =~= Seq::<Seq<char>>::empty());
    assert(windows(Seq::<char>::empty(), 2) =~= Seq::<Seq<char>>::empty());
    assert(windows(Seq::<char>::empty(), 3) =~= Seq::<Seq<char>>::empty());
    assert(tokens_of(s) =~= seq![s]);
}

/// A character that is neither an ASCII nor a Unicode letter or digit ends
/// every token: text split at it tokenizes as its two sides, one after the
/// other.
pub proof fn separators_split_tokens(a: Seq<char>, sep: char, b: Seq<char>)
    requires
        !ascii_alphanumeric(sep),
        !unicode_alphanumeric(sep),
    ensures
        tokens_of(a + seq![sep] + b) == tokens_of(a) + tokens_of(b),
{
    let p = a + seq![sep];
    assert(p.drop_last() =~= a);
    assert(p.last() == sep);
    assert(scan(p) == (tokens_of(a), Seq::<char>::empty(), Seq::<char>::empty()));
    lemma_scan_after_reset(p, b, tokens_of(a));
    let (o2, a2, u2) = scan(b);
    assert(flushed(tokens_of(a) + o2, a2, u2) =~= tokens_of(a) + flushed(o2, a2, u2));
}

/// A letter or digit outside ASCII.
pub open spec fn other_alphanumeric(c: char) -> bool {
    !ascii_alphanumeric(c) && unicode_alphanumeric(c)
}

proof fn lemma_scan_other(u: Seq<char>, a: Seq<char>)
    requires
        forall|i: int| 0 <= i < u.len() ==> other_alphanumeric(#[trigger] u[i]),
        a.len() == 0 || scan(a) == (Seq::<Seq<char>>::empty(), a, Seq::<char>::empty()),
        a.len() > 0 ==> u.len() > 0,
    ensures
        u.len() > 0 ==> scan(a + u) == (if a.len() > 0 { seq![a] } else { Seq::<Seq<char>>::empty() }, Seq::<char>::empty(), u),
    decreases u.len(),
{
    if u.len() > 0 {
        let up = u.drop_last();
        assert((a + u).drop_last() =~= a + up);
        assert((a + u).last() == u.last());
        assert(other_alphanumeric(u[u.len() - 1]));
        if up.len() > 0 {
            assert forall|i: int| 0 <= i < up.len() implies other_alphanumeric(#[trigger] up[i]) by {
                assert(up[i] == u[i]);
            }
            lemma_scan_other(up, a);
            assert(up.push(u.last()) =~= u);
        } else {
            assert(a + up =~= a);
            if a.len() == 0 {
                assert(scan(a) == (Seq::<Seq<char>>::empty(), Seq::<char>::empty(), Seq::<char>::empty()));
            } else {
                assert(flushed(Seq::<Seq<char>>::empty(), a, Seq::<char>::empty()) =~= seq![a]) by {
                    assert(windows(Seq::<char>::empty(), 1) =~= Seq::<Seq<char>>::empty());
                    assert(windows(Seq::<char>::empty(), 2) =~= Seq::<Seq<char>>::empty());
                    assert(windows(Seq::<char>::empty(), 3) =~= Seq::<Seq<char>>::empty());
                }
            }
            assert(Seq::<char>::empty().push(u.last()) =~= u);
        }
    }
}

/// A nonempty run of letters and digits outside ASCII gives every window of
/// one, two and three consecutive characters, shortest first, each length
/// left to right; an ASCII word right before such a run is a token of its
/// own, before them.
pub proof fn other_runs_give_ngrams(a: Seq<char>, u: Seq<char>)
    requires
        u.len() > 0,
        forall|i: int| 0 <= i < u.len() ==> other_alphanumeric(#[trigger] u[i]),
        forall|i: int| 0 <= i < a.len() ==> ascii_alphanumeric(#[trigger] a[i]),
    ensures
        tokens_of(a + u) == (if a.len() > 0 { seq![a] } else { Seq::<Seq<char>>::empty() }) + windows(u, 1)
            + windows(u, 2) + windows(u, 3),
{
    if a.len() > 0 {
        lemma_scan_ascii(a);
    }
    lemma_scan_other(u, a);
}

fn push_windows(out: &mut Vec<String>, uni: &Vec<char>, width: usize)
    requires
        1 <= width <= 3,
    ensures
        views(final(out)@) == views(old(out)@) + windows(uni@, width as nat),
{
    if uni.len() >= width {
        let n = uni.len();
        let count = n - width + 1;
        let mut start: usize = 0;
        let ghost base = views(out@);
        while start < count
            invariant
                1 <= width <= 3,
                uni@.len() >= width,
                n == uni@.len(),
                count == n - width + 1,
                start <= count,
                views(out@) == base + windows(uni@, width as nat).take(start as int),
            decreases count - start,
        {
            let piece = string_of_range(uni, start, start + width);
            proof {
                assert(piece@ =~= uni@.subrange(start as int, start + width));
            }
            let ghost before = out@;
            out.push(piece);
            start = start + 1;
            proof {
                assert(out@ =~= before.push(piece));
                assert(views(out@) =~= views(before).push(piece@));
                assert(windows(uni@, width as nat).take(start as int) =~= windows(uni@, width as nat).take(start - 1).push(uni@.subrange(start - 1, start - 1 + width)));
                assert(views(out@) =~= base + windows(uni@, width as nat).take(start as int));
            }
        }
        proof {
            assert(windows(uni@, width as nat).take(count as int) =~= windows(uni@, width as nat));
        }
    } else {
        assert(windows(uni@, width as nat) =~= Seq::<Seq<char>>::empty());
        assert(views(out@) =~= views(out@) + windows(uni@, width as nat));
    }
}

fn flush(out: &mut Vec<String>, ascii: &mut Vec<char>, uni: &mut Vec<char>)
    ensures
        views(final(out)@) == flushed(views(old(out)@), old(ascii)@, old(uni)@),
        final(ascii)@ == Seq::<char>::empty(),
        final(uni)@ == Seq::<char>::empty(),
{
    let ghost o = views(out@);
    if ascii.len() > 0 {
        let word = string_of(ascii.as_slice());
        let ghost before = out@;
        out.push(word);
        assert(out@ =~= before.push(word));
        assert(views(out@) =~= views(before).push(word@));
        assert(views(out@) =~= o + seq![old(ascii)@]);
    } else {
        assert(views(out@) =~= o + Seq::<Seq<char>>::empty());
    }
    push_windows(out, uni, 1);
    push_windows(out, uni, 2);
    push_windows(out, uni, 3);
    ascii.clear();
    uni.clear();
}

/// Split `value` into search terms (see `spec_tokenize`).
pub fn tokenize(value: &str) -> (out: Vec<String>)
    ensures
        views(out@) == spec_tokenize(value@),
{
    let lowered = lowercase(value);
    let chars = chars_of(lowered.as_str());
    let mut output: Vec<String> = Vec::new();
    let mut ascii: Vec<char> = Vec::new();
    let mut unicode: Vec<char> = Vec::new();
    let mut i: usize = 0;
    while i < chars.len()
        invariant
            i <= chars@.len(),
            chars@ == lowercase_chars(value@),
            scan(chars@.take(i as int)) == (views(output@), ascii@, unicode@),
        decreases chars@.len() - i,
    {
        let c = chars[i];
        proof {
            assert(chars@.take(i + 1).drop_last() =~= chars@.take(i as int));
        }
        if is_ascii_alphanumeric(c) {
            if unicode.len() > 0 {
                flush(&mut output, &mut ascii, &mut unicode);
            }
            ascii.push(c);
        } else if is_alphanumeric(c) {
            if ascii.len() > 0 {
                flush(&mut output, &mut ascii, &mut unicode);
            }
            unicode.push(c);
        } else {
            flush(&mut output, &mut ascii, &mut unicode);
        }
        i = i + 1;
        proof {
            assert(ascii@ =~= scan(chars@.take(i as int)).1);
            assert(unicode@ =~= scan(chars@.take(i as int)).2);
        }
    }
    proof {
        assert(chars@.take(chars@.len() as int) =~= chars@);
    }
    flush(&mut output, &mut ascii, &mut unicode);
    output
}

/// How often `t` occurs in `s`.
pub open spec fn occurrences(s: Seq<Seq<char>>, t: Seq<char>) -> nat
    decreases s.len(),
{
    if s.len() == 0 {
        0
    } else {
        occurrences(s.drop_last(), t) + if s.last() == t { 1nat } else { 0nat }
    }
}

/// One distinct term of a field and how many times it occurs there.
pub struct TermFrequency {
    pub term: String,
    pub count: u32,
}

/// The term statistics of one indexed field.
pub struct FieldTerms {
    pub length: u32,
    pub frequencies: Vec<TermFrequency>,
}

/// A count as the index stores it: saturated at `u32::MAX`.
pub open spec fn stored_count(n: nat) -> u32 {
    if n <= u32::MAX { n as u32 } else { u32::MAX }
}

/// `stats` lists every distinct term of `tokens` exactly once, with its stored count,
/// and holds the stored number of tokens.
pub open spec fn describes(stats: FieldTerms, tokens: Seq<Seq<char>>) -> bool {
    &&& stats.length == stored_count(tokens.len())
    &&& forall|j: int, k: int|
        0 <= j < k < stats.frequencies@.len() ==> stats.frequencies@[j].term@
            != stats.frequencies@[k].term@
    &&& forall|j: int|
        0 <= j < stats.frequencies@.len() ==> #[trigger] tokens.contains(
            stats.frequencies@[j].term@,
        ) && stats.frequencies@[j].count == stored_count(
            occurrences(tokens, stats.frequencies@[j].term@),
        )
    &&& forall|t: Seq<char>|
        #[trigger] tokens.contains(t) ==> exists|j: int|
            0 <= j < stats.frequencies@.len() && #[trigger] stats.frequencies@[j].term@ == t
}

proof fn occurrences_step(s: Seq<Seq<char>>, i: int, t: Seq<char>)
    requires
        0 <= i < s.len(),
    ensures
        occurrences(s.take(i + 1), t) == occurrences(s.take(i), t) + if s[i] == t { 1nat } else { 0nat },
{
    assert(s.take(i + 1).drop_last() =~= s.take(i));
}

proof fn lemma_absent_occurrences(s: Seq<Seq<char>>, t: Seq<char>)
    requires
        !s.contains(t),
    ensures
        occurrences(s, t) == 0,
    decreases s.len(),
{
    if s.len() > 0 {
        assert(!s.drop_last().contains(t)) by {
            if s.drop_last().contains(t) {
                let w = choose|w: int| 0 <= w < s.drop_last().len() && s.drop_last()[w] == t;
                assert(s[w] == t);
            }
        }
        assert(s[s.len() - 1] != t);
        lemma_absent_occurrences(s.drop_last(), t);
    }
}

fn find_term(frequencies: &Vec<TermFrequency>, token: &String) -> (found: Option<usize>)
    ensures
        found matches Some(j) ==> j < frequencies@.len() && frequencies@[j as int].term@ == token@,
        found is None ==> forall|k: int| 0 <= k < frequencies@.len() ==> #[trigger] frequencies@[k].term@ != token@,
{
    let mut j: usize = 0;
    while j < frequencies.len()
        invariant
            j <= frequencies@.len(),
            forall|k: int| 0 <= k < j ==> #[trigger] frequencies@[k].term@ != token@,
        decreases frequencies@.len() - j,
    {
        if frequencies[j].term == *token {
            return Some(j);
        }
        j = j + 1;
    }
    None
}

/// Count the terms of `value`.
pub fn field_terms(value: &str) -> (out: FieldTerms)
    ensures
        describes(out, spec_tokenize(value@)),
{
    let tokens = tokenize(value);
    let ghost toks = views(tokens@);
    let mut frequencies: Vec<TermFrequency> = Vec::new();
    let mut i: usize = 0;
    while i < tokens.len()
        invariant
            i <= tokens@.len(),
            toks == views(tokens@),
            toks.len() == tokens@.len(),
            forall|j: int, k: int|
                0 <= j < k < frequencies@.len() ==> frequencies@[j].term@ != frequencies@[k].term@,
            forall|j: int|
                0 <= j < frequencies@.len() ==> #[trigger] toks.take(i as int).contains(
                    frequencies@[j].term@,
                ) && frequencies@[j].count == stored_count(
                    occurrences(toks.take(i as int), frequencies@[j].term@),
                ),
            forall|t: Seq<char>|
                #[trigger] toks.take(i as int).contains(t) ==> exists|j: int|
                    0 <= j < frequencies@.len() && #[trigger] frequencies@[j].term@ == t,
        decreases tokens@.len() - i,
    {
        let token = &tokens[i];
        let ghost prev = toks.take(i as int);
        let ghost next = toks.take(i + 1);
        proof {
            assert(toks[i as int] == token@);
            assert(next =~= prev.push(token@));
            assert forall|t: Seq<char>| #[trigger] occurrences(next, t) == occurrences(prev, t) + if token@ == t { 1nat } else { 0nat } by {
                occurrences_step(toks, i as int, t);
            }
        }
        match find_term(&frequencies, token) {
            Some(j) => {
                let c = frequencies[j].count;
                let bumped = if c < u32::MAX { c + 1 } else { c };
                let ghost before = frequencies@;
                frequencies.set(j, TermFrequency { term: frequencies[j].term.clone(), count: bumped });
                proof {
                    assert forall|k: int| 0 <= k < frequencies@.len() implies #[trigger] next.contains(frequencies@[k].term@) && frequencies@[k].count == stored_count(occurrences(next, frequencies@[k].term@)) by {
                        assert(prev.contains(before[k].term@));
                        let w = choose|w: int| 0 <= w < prev.len() && prev[w] == before[k].term@;
                        assert(next[w] == prev[w]);
                        assert(occurrences(next, before[k].term@) == occurrences(prev, before[k].term@) + if token@ == before[k].term@ { 1nat } else { 0nat });
                    }
                    assert forall|t: Seq<char>| #[trigger] next.contains(t) implies exists|k: int| 0 <= k < frequencies@.len() && #[trigger] frequencies@[k].term@ == t by {
                        let w = choose|w: int| 0 <= w < next.len() && next[w] == t;
                        if w < prev.len() {
                            assert(prev[w] == t);
                            assert(prev.contains(t));
                            let k = choose|k: int| 0 <= k < before.len() && #[trigger] before[k].term@ == t;
                            assert(frequencies@[k].term@ == t);
                        } else {
                            assert(frequencies@[j as int].term@ == t);
                        }
                    }
                }
            },
            None => {
                let ghost before = frequencies@;
                frequencies.push(TermFrequency { term: token.clone(), count: 1 });
                proof {
                    assert(!prev.contains(token@)) by {
                        if prev.contains(token@) {
                            let k = choose|k: int| 0 <= k < before.len() && #[trigger] before[k].term@ == token@;
                            assert(false);
                        }
                    }
                    assert(occurrences(prev, token@) == 0) by {
                        lemma_absent_occurrences(prev, token@);
                    }
                    assert forall|k: int| 0 <= k < frequencies@.len() implies #[trigger] next.contains(frequencies@[k].term@) && frequencies@[k].count == stored_count(occurrences(next, frequencies@[k].term@)) by {
                        if k < before.len() {
                            assert(prev.contains(before[k].term@));
                            let w = choose|w: int| 0 <= w < prev.len() && prev[w] == before[k].term@;
                            assert(next[w] == prev[w]);
                            assert(occurrences(next, before[k].term@) == occurrences(prev, before[k].term@) + if token@ == before[k].term@ { 1nat } else { 0nat });
                        } else {
                            assert(next[i as int] == token@);
                            assert(occurrences(next, token@) == occurrences(prev, token@) + 1);
                        }
                    }
                    assert forall|t: Seq<char>| #[trigger] next.contains(t) implies exists|k: int| 0 <= k < frequencies@.len() && #[trigger] frequencies@[k].term@ == t by {
                        let w = choose|w: int| 0 <= w < next.len() && next[w] == t;
                        if w < prev.len() {
                            assert(prev[w] == t);
                            assert(prev.contains(t));
                            let k = choose|k: int| 0 <= k < before.len() && #[trigger] before[k].term@ == t;
                            assert(frequencies@[k].term@ == t);
                        } else {
                            assert(frequencies@[before.len() as int].term@ == t);
                        }
                    }
                }
            },
        }
        i = i + 1;
    }
    proof {
        assert(toks.take(tokens@.len() as int) =~= toks);
    }
    let length = if tokens.len() <= u32::MAX as usize { tokens.len() as u32 } else { u32::MAX };
    let out = FieldTerms { length, frequencies };
    proof {
        assert(out.length == stored_count(toks.len()));
        assert(toks.take(i as int) == toks);
        assert forall|t: Seq<char>| #[trigger] toks.contains(t) implies exists|k: int| 0 <= k < out.frequencies@.len() && #[trigger] out.frequencies@[k].term@ == t by {
            assert(toks.take(i as int).contains(t));
            let k = choose|k: int| 0 <= k < frequencies@.len() && #[trigger] frequencies@[k].term@ == t;
            assert(out.frequencies@[k].term@ == t);
        }
        assert(describes(out, toks));
    }
    out
}

} // verus!
