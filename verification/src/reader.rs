//! The incremental reader: position tracking, truncation detection, and
//! splitting newly read text into a batch of segments.

use crate::error::Error;
use vstd::prelude::*;
use vstd::utf8::{decode_utf8, valid_utf8};

verus! {

/// Whether a character counts as whitespace when deciding that a segment is
/// blank. Matches `char::is_whitespace`, which the executable code calls.
pub uninterp spec fn is_space(c: char) -> bool;

/// Relies on `char::is_whitespace`: whether a character has the Unicode
/// White_Space property depends on the character alone.
#[verifier::external_body]
fn char_is_whitespace(c: char) -> (r: bool)
    ensures
        r == is_space(c),
{
    c.is_whitespace()
}

/// The separator occurs in `s` at position `i`.
pub open spec fn match_at(s: Seq<char>, sep: Seq<char>, i: int) -> bool {
    &&& 0 <= i
    &&& i + sep.len() <= s.len()
    &&& s.subrange(i, i + sep.len()) == sep
}

/// Position of the first occurrence of `sep` in `s`; any value larger than
/// `s.len() - sep.len()` means there is none.
pub open spec fn find_at(s: Seq<char>, sep: Seq<char>) -> nat
    decreases s.len(),
{
    if sep.len() == 0 {
        0
    } else if s.len() < sep.len() {
        s.len() + 1
    } else if s.subrange(0, sep.len() as int) == sep {
        0
    } else {
        1 + find_at(s.subrange(1, s.len() as int), sep)
    }
}

/// All the parts of `s` split on the literal separator `sep`, in order,
/// including empty parts. An empty separator splits between every pair of
/// neighbouring characters, with an empty part at either end.
pub open spec fn split_spec(s: Seq<char>, sep: Seq<char>) -> Seq<Seq<char>>
    decreases s.len(),
{
    if sep.len() == 0 {
        seq![Seq::<char>::empty()] + s.map_values(|c: char| seq![c]) + seq![
            Seq::<char>::empty(),
        ]
    } else {
        let f = find_at(s, sep) as int;
        if f + sep.len() <= s.len() {
            seq![s.subrange(0, f)] + split_spec(s.subrange(f + sep.len(), s.len() as int), sep)
        } else {
            seq![s]
        }
    }
}

/// A part whose trimmed view is empty: every character is whitespace.
pub open spec fn is_blank(part: Seq<char>) -> bool {
    forall|i: int| 0 <= i < part.len() ==> is_space(part[i])
}

/// The parts that survive filtering: blank parts are dropped, the others are
/// kept unchanged and in order.
pub open spec fn keep_parts(parts: Seq<Seq<char>>) -> Seq<Seq<char>>
    decreases parts.len(),
{
    if parts.len() == 0 {
        Seq::empty()
    } else if is_blank(parts[0]) {
        keep_parts(parts.subrange(1, parts.len() as int))
    } else {
        seq![parts[0]] + keep_parts(parts.subrange(1, parts.len() as int))
    }
}

/// The parts of `content` split on `sep` whose trimmed view is non-empty,
/// in original order and with their original, untrimmed text.
pub open spec fn split_and_filter_spec(content: Seq<char>, sep: Seq<char>) -> Seq<Seq<char>> {
    keep_parts(split_spec(content, sep))
}

proof fn lemma_keep_parts_empty()
    ensures
        keep_parts(Seq::<Seq<char>>::empty()) == Seq::<Seq<char>>::empty(),
{
}

/// `find_at` returns the position of the first occurrence of the separator,
/// or a position past the last possible window when there is none.
proof fn lemma_find_at_props(s: Seq<char>, sep: Seq<char>)
    requires
        sep.len() >= 1,
    ensures
        ({
            let f = find_at(s, sep) as int;
            &&& (f + sep.len() <= s.len() ==> match_at(s, sep, f) && (forall|j: int|
                0 <= j < f ==> !match_at(s, sep, j)))
            &&& (f + sep.len() > s.len() ==> (forall|j: int| !match_at(s, sep, j)))
        }),
    decreases s.len(),
{
    let f = find_at(s, sep) as int;
    let k = sep.len() as int;
    if s.len() < sep.len() {
        assert forall|j: int| !match_at(s, sep, j) by {
            if 0 <= j && j + k <= s.len() {
                assert(false);
            }
        }
    } else if s.subrange(0, k) == sep {
        assert(match_at(s, sep, 0));
    } else {
        let s1 = s.subrange(1, s.len() as int);
        lemma_find_at_props(s1, sep);
        let f1 = find_at(s1, sep) as int;
        assert forall|j: int| 0 <= j implies (match_at(s1, sep, j) <==> match_at(
            s,
            sep,
            j + 1,
        )) by {
            if j + k <= s1.len() {
                assert(s1.subrange(j, j + k) =~= s.subrange(j + 1, j + 1 + k));
            }
        }
        if f1 + k <= s1.len() {
            assert(match_at(s1, sep, f1));
            assert(match_at(s, sep, f));
            assert forall|j: int| 0 <= j < f implies !match_at(s, sep, j) by {
                if j == 0 {
                    assert(!(s.subrange(0, k) == sep));
                } else {
                    assert(!match_at(s1, sep, j - 1));
                }
            }
        } else {
            assert forall|j: int| !match_at(s, sep, j) by {
                if j == 0 {
                    assert(!(s.subrange(0, k) == sep));
                } else if j >= 1 {
                    assert(!match_at(s1, sep, j - 1));
                }
            }
        }
    }
}

/// Occurrences inside a suffix of `s` are occurrences of `s`, shifted.
proof fn lemma_match_at_shift(s: Seq<char>, sep: Seq<char>, from: int, j: int)
    requires
        0 <= from <= s.len(),
        0 <= j,
    ensures
        match_at(s.subrange(from, s.len() as int), sep, j) <==> match_at(s, sep, from + j),
{
    let tail = s.subrange(from, s.len() as int);
    if j + sep.len() <= tail.len() {
        assert(tail.subrange(j, j + sep.len()) =~= s.subrange(from + j, from + j + sep.len()));
    }
}

/// Collects the characters of a string into a vector.
pub(crate) fn chars_of(s: &str) -> (r: Vec<char>)
    ensures
        r@ == s@,
{
    let n: usize = s.unicode_len();
    let mut r: Vec<char> = Vec::new();
    let mut i: usize = 0;
    while i < n
        invariant
            i <= n,
            n == s@.len(),
            r@.len() == i,
            forall|j: int| 0 <= j < i ==> r@[j] == s@[j],
        decreases n - i,
    {
        let ch = s.get_char(i);
        r.push(ch);
        i = i + 1;
    }
    proof {
        assert(r@ =~= s@);
    }
    r
}

/// Whether the separator `v` occurs in `c` starting exactly at index `i`.
fn match_here(c: &Vec<char>, v: &Vec<char>, i: usize) -> (m: bool)
    requires
        i + v@.len() <= c@.len(),
    ensures
        m == match_at(c@, v@, i as int),
{
    let k: usize = v.len();
    let n: usize = c.len();
    let mut t: usize = 0;
    while t < k
        invariant
            t <= k,
            k == v@.len(),
            n == c@.len(),
            i + k <= n,
            forall|u: int| 0 <= u < t ==> c@[i + u] == v@[u],
        decreases k - t,
    {
        if c[i + t] != v[t] {
            proof {
                if match_at(c@, v@, i as int) {
                    assert(c@.subrange(i as int, i + v@.len())[t as int] == v@[t as int]);
                }
            }
            return false;
        }
        t = t + 1;
    }
    proof {
        assert(c@.subrange(i as int, i + v@.len()) =~= v@);
    }
    true
}

/// Finds the first occurrence of `v` in `c` at or after `from`; agrees with
/// `find_at` on the suffix of `c` that starts at `from`.
fn find_match(c: &Vec<char>, v: &Vec<char>, from: usize) -> (found: Option<usize>)
    requires
        v@.len() >= 1,
        from <= c@.len(),
    ensures
        ({
            let tail = c@.subrange(from as int, c@.len() as int);
            let f = find_at(tail, v@);
            match found {
                Some(i) => from + f == i && f + v@.len() <= tail.len() && i + v@.len()
                    <= c@.len(),
                None => f + v@.len() > tail.len(),
            }
        }),
{
    let n: usize = c.len();
    let k: usize = v.len();
    if k > n {
        return None;
    }
    let mut i: usize = from;
    while i <= n - k
        invariant
            from <= i,
            k == v@.len(),
            n == c@.len(),
            1 <= k <= n,
            i <= n + 1,
            forall|j: int| from <= j < i ==> !match_at(c@, v@, j),
        decreases n - i,
    {
        if match_here(c, v, i) {
            proof {
                let tail = c@.subrange(from as int, c@.len() as int);
                lemma_find_at_props(tail, v@);
                let f = find_at(tail, v@) as int;
                lemma_match_at_shift(c@, v@, from as int, i - from);
                assert(match_at(tail, v@, i - from));
                if f + k <= tail.len() {
                    if f < i - from {
                        assert(match_at(tail, v@, f));
                        lemma_match_at_shift(c@, v@, from as int, f);
                        assert(match_at(c@, v@, from + f));
                        assert(false);
                    }
                    if f > i - from {
                        assert(!match_at(tail, v@, i - from));
                        assert(false);
                    }
                } else {
                    assert(!match_at(tail, v@, i - from));
                    assert(false);
                }
            }
            return Some(i);
        }
        i = i + 1;
    }
    proof {
        let tail = c@.subrange(from as int, c@.len() as int);
        lemma_find_at_props(tail, v@);
        let f = find_at(tail, v@) as int;
        if f + v@.len() <= tail.len() {
            assert(match_at(tail, v@, f));
            lemma_match_at_shift(c@, v@, from as int, f);
            assert(match_at(c@, v@, from + f));
            assert(false);
        }
    }
    None
}

/// Whether every character of `c` in `[start, end)` is whitespace.
fn segment_is_blank(c: &Vec<char>, start: usize, end: usize) -> (blank: bool)
    requires
        start <= end <= c@.len(),
    ensures
        blank == is_blank(c@.subrange(start as int, end as int)),
{
    let ghost seg = c@.subrange(start as int, end as int);
    let mut j: usize = start;
    while j < end
        invariant
            start <= j <= end,
            end <= c@.len(),
            seg == c@.subrange(start as int, end as int),
            forall|t: int| start <= t < j ==> is_space(c@[t]),
        decreases end - j,
    {
        if !char_is_whitespace(c[j]) {
            proof {
                assert(seg[j - start] == c@[j as int]);
            }
            return false;
        }
        j = j + 1;
    }
    proof {
        assert forall|t: int| 0 <= t < seg.len() implies is_space(seg[t]) by {
            assert(seg[t] == c@[start + t]);
        }
    }
    true
}

/// Splits `content` on the literal separator and keeps, untrimmed and in
/// order, exactly the parts whose trimmed view is non-empty.
pub fn split_and_filter_content(content: &str, separator: &str) -> (segments: Vec<String>)
    ensures
        segments.deep_view() == split_and_filter_spec(content@, separator@),
{
    let c = chars_of(content);
    let v = chars_of(separator);
    let n: usize = c.len();
    let mut segments: Vec<String> = Vec::new();
    if v.len() == 0 {
        let ghost single = |ch: char| seq![ch];
        proof {
            let whole = split_spec(content@, separator@);
            assert(whole[0] =~= Seq::<char>::empty());
            assert(is_blank(whole[0]));
            assert(whole.subrange(1, whole.len() as int) =~= c@.map_values(single) + seq![
                Seq::<char>::empty(),
            ]);
            assert(c@.subrange(0, n as int) =~= c@);
        }
        let mut i: usize = 0;
        while i < n
            invariant
                i <= n,
                n == c@.len(),
                c@ == content@,
                v@ == separator@,
                v@.len() == 0,
                single == (|ch: char| seq![ch]),
                split_and_filter_spec(content@, separator@) == segments.deep_view() + keep_parts(
                    c@.subrange(i as int, n as int).map_values(single) + seq![
                        Seq::<char>::empty(),
                    ],
                ),
            decreases n - i,
        {
            let ghost old_dv = segments.deep_view();
            let ghost rest = c@.subrange(i as int, n as int).map_values(single) + seq![
                Seq::<char>::empty(),
            ];
            let ghost rest_next = c@.subrange(i + 1, n as int).map_values(single) + seq![
                Seq::<char>::empty(),
            ];
            proof {
                assert(rest[0] =~= seq![c@[i as int]]);
                assert(rest.subrange(1, rest.len() as int) =~= rest_next);
            }
            if !char_is_whitespace(c[i]) {
                let part = content.substring_char(i, i + 1).to_owned();
                proof {
                    assert(part@ =~= seq![c@[i as int]]);
                    assert(!is_space(seq![c@[i as int]][0]));
                    assert(!is_blank(rest[0]));
                }
                segments.push(part);
                proof {
                    assert(segments.deep_view() =~= old_dv.push(part@));
                    assert(old_dv.push(part@) =~= old_dv + seq![part@]);
                    assert(old_dv + (seq![rest[0]] + keep_parts(rest_next)) =~= (old_dv + seq![
                        part@,
                    ]) + keep_parts(rest_next));
                }
            } else {
                proof {
                    assert forall|t: int| 0 <= t < rest[0].len() implies is_space(
                        rest[0][t],
                    ) by {
                        assert(rest[0][t] == c@[i as int]);
                    }
                    assert(is_blank(rest[0]));
                }
            }
            i = i + 1;
        }
        proof {
            let last = c@.subrange(n as int, n as int).map_values(single) + seq![
                Seq::<char>::empty(),
            ];
            assert(last =~= seq![Seq::<char>::empty()]);
            assert(is_blank(last[0]));
            assert(last.subrange(1, 1) =~= Seq::<Seq<char>>::empty());
            lemma_keep_parts_empty();
            assert(segments.deep_view() + keep_parts(last) =~= segments.deep_view());
        }
        return segments;
    }
    let mut start: usize = 0;
    proof {
        assert(c@.subrange(0, n as int) =~= c@);
        assert(segments.deep_view() =~= Seq::<Seq<char>>::empty());
        assert(segments.deep_view() + keep_parts(split_spec(c@, v@)) =~= keep_parts(
            split_spec(c@, v@),
        ));
    }
    loop
        invariant_except_break
            split_and_filter_spec(content@, separator@) == segments.deep_view() + keep_parts(
                split_spec(c@.subrange(start as int, n as int), v@),
            ),
        invariant
            start <= n,
            n == c@.len(),
            c@ == content@,
            v@ == separator@,
            v@.len() >= 1,
        ensures
            segments.deep_view() == split_and_filter_spec(content@, separator@),
        decreases n - start,
    {
        let ghost tail = c@.subrange(start as int, n as int);
        let found = find_match(&c, &v, start);
        let ghost old_dv = segments.deep_view();
        match found {
            Some(i) => {
                let ghost f = find_at(tail, v@) as int;
                let ghost part_view = tail.subrange(0, f);
                let ghost tail_next = c@.subrange(i + v@.len(), n as int);
                proof {
                    assert(split_spec(tail, v@) == seq![part_view] + split_spec(
                        tail.subrange(f + v@.len(), tail.len() as int),
                        v@,
                    ));
                    assert(tail.subrange(f + v@.len(), tail.len() as int) =~= tail_next);
                    assert(part_view =~= c@.subrange(start as int, i as int));
                    let parts = seq![part_view] + split_spec(tail_next, v@);
                    assert(parts[0] == part_view);
                    assert(parts.subrange(1, parts.len() as int) =~= split_spec(tail_next, v@));
                }
                if !segment_is_blank(&c, start, i) {
                    let part = content.substring_char(start, i).to_owned();
                    segments.push(part);
                    proof {
                        assert(segments.deep_view() =~= old_dv.push(part_view));
                        assert(old_dv.push(part_view) =~= old_dv + seq![part_view]);
                        assert(old_dv + (seq![part_view] + keep_parts(split_spec(tail_next, v@)))
                            =~= (old_dv + seq![part_view]) + keep_parts(split_spec(tail_next, v@)));
                    }
                }
                start = i + v.len();
            },
            None => {
                let ghost parts = split_spec(tail, v@);
                proof {
                    assert(parts == seq![tail]);
                    assert(parts[0] == tail);
                    assert(parts.subrange(1, 1) =~= Seq::<Seq<char>>::empty());
                    lemma_keep_parts_empty();
                }
                if !segment_is_blank(&c, start, n) {
                    let part = content.substring_char(start, n).to_owned();
                    segments.push(part);
                    proof {
                        assert(segments.deep_view() =~= old_dv.push(tail));
                        assert(old_dv.push(tail) =~= old_dv + seq![tail]);
                        assert(keep_parts(parts) =~= seq![tail] + Seq::<Seq<char>>::empty());
                        assert(seq![tail] + Seq::<Seq<char>>::empty() =~= seq![tail]);
                    }
                } else {
                    proof {
                        assert(keep_parts(parts) =~= Seq::<Seq<char>>::empty());
                        assert(old_dv + Seq::<Seq<char>>::empty() =~= old_dv);
                    }
                }
                break ;
            },
        }
    }
    segments
}

/// The file counts as truncated when its size dropped below the position the
/// reader had already consumed up to.
pub fn detect_file_truncation(current_size: u64, last_position: u64) -> (truncated: bool)
    ensures
        truncated == (current_size < last_position),
{
    current_size < last_position
}

/// How many bytes are newly available past `last_position`, or `None` when
/// there is nothing new to read.
pub fn calculate_bytes_to_read(current_size: u64, last_position: u64) -> (delta: Option<u64>)
    ensures
        current_size <= last_position ==> delta is None,
        current_size > last_position ==> delta == Some((current_size - last_position) as u64),
{
    if current_size <= last_position {
        None
    } else {
        Some(current_size - last_position)
    }
}

/// What a planning pass asks the caller to do: nothing, or fetch the byte
/// window `[offset, offset + len)` of the file.
#[derive(Debug, Clone, Copy, PartialEq, Eq, Structural)]
pub enum ReadPlan {
    Skip,
    Fetch { offset: u64, len: u64 },
}

/// Where the cursor stands once a truncation, if any, has been taken into
/// account: positions past the end of the file reset to the start.
pub open spec fn adjusted_position(current_size: u64, position: u64) -> u64 {
    if current_size < position {
        0
    } else {
        position
    }
}

/// One planning pass: the position after truncation handling, and the byte
/// window that still has to be fetched, if any. An absent file leaves the
/// cursor untouched and fetches nothing.
pub open spec fn plan_spec(position: u64, file_exists: bool, current_size: u64) -> (u64, ReadPlan) {
    if !file_exists {
        (position, ReadPlan::Skip)
    } else {
        let adjusted = adjusted_position(current_size, position);
        if current_size > adjusted {
            (adjusted, ReadPlan::Fetch { offset: adjusted, len: (current_size - adjusted) as u64 })
        } else {
            (adjusted, ReadPlan::Skip)
        }
    }
}

/// The batch a read cycle emits for newly decoded text: the filtered split,
/// or nothing when no segment survives.
pub open spec fn batch_spec(decoded: Seq<char>, sep: Seq<char>) -> Option<Seq<Seq<char>>> {
    let parts = split_and_filter_spec(decoded, sep);
    if parts.len() == 0 {
        None
    } else {
        Some(parts)
    }
}

/// Relies on `String::from_utf8`: it succeeds exactly on valid UTF-8 input
/// and decodes it; the result depends on the bytes alone.
#[verifier::external_body]
fn decode_bytes(bytes: Vec<u8>) -> (text: Option<String>)
    ensures
        text is Some <==> valid_utf8(bytes@),
        text matches Some(s) ==> s@ == decode_utf8(bytes@),
{
    String::from_utf8(bytes).ok()
}

/// The cursor a background task keeps for one tailed file.
pub struct TailState {
    /// The tailed file, as the caller spelt it.
    pub path: String,
    /// How many bytes of the file have been consumed so far.
    pub position: u64,
    /// The literal separator that splits new text into segments.
    pub separator: String,
}

impl TailState {
    /// A fresh cursor at the start of the file; the separator defaults to a
    /// newline.
    pub fn new(path: String, separator: Option<String>) -> (state: Self)
        ensures
            state.path == path,
            state.position == 0,
            match separator {
                Some(s) => state.separator == s,
                None => state.separator@ == "\n"@,
            },
    {
        let sep = match separator {
            Some(s) => s,
            None => "\n".to_owned(),
        };
        TailState { path, position: 0, separator: sep }
    }

    /// Decides what to fetch next, given whether the file exists and how
    /// large it currently is. Detects truncation and resets the cursor to
    /// the start of the file; this is the only way the position decreases.
    pub fn plan_read(&mut self, file_exists: bool, current_size: u64) -> (plan: ReadPlan)
        ensures
            final(self).path == old(self).path,
            final(self).separator == old(self).separator,
            (final(self).position, plan) == plan_spec(
                old(self).position,
                file_exists,
                current_size,
            ),
    {
        if !file_exists {
            return ReadPlan::Skip;
        }
        if detect_file_truncation(current_size, self.position) {
            self.position = 0;
        }
        match calculate_bytes_to_read(current_size, self.position) {
            None => ReadPlan::Skip,
            Some(len) => ReadPlan::Fetch { offset: self.position, len },
        }
    }

    /// Takes the bytes a fetch produced, advances the cursor to the size the
    /// plan was made for, and splits the decoded text into a batch. Bytes
    /// that are not valid UTF-8 end the cycle with a decode error and leave
    /// the cursor where it was.
    pub fn absorb_new_content(&mut self, current_size: u64, raw: Vec<u8>) -> (outcome: Result<
        Option<Vec<String>>,
        Error,
    >)
        ensures
            final(self).path == old(self).path,
            final(self).separator == old(self).separator,
            !valid_utf8(raw@) ==> final(self).position == old(self).position && (
            outcome matches Err(e) && e matches Error::Utf8 { message } && message@
                == "newly read bytes are not valid UTF-8"@),
            valid_utf8(raw@) ==> final(self).position == current_size && match batch_spec(
                decode_utf8(raw@),
                old(self).separator@,
            ) {
                None => outcome == Ok::<Option<Vec<String>>, Error>(None),
                Some(parts) => outcome matches Ok(Some(batch)) && batch.deep_view() == parts,
            },
    {
        match decode_bytes(raw) {
            None => Err(
                Error::Utf8 { message: "newly read bytes are not valid UTF-8".to_owned() },
            ),
            Some(text) => {
                self.position = current_size;
                let batch = split_and_filter_content(text.as_str(), self.separator.as_str());
                if batch.len() == 0 {
                    Ok(None)
                } else {
                    Ok(Some(batch))
                }
            },
        }
    }
}

/// The parts joined back together, with the separator in between.
pub open spec fn join_with(parts: Seq<Seq<char>>, sep: Seq<char>) -> Seq<char>
    decreases parts.len(),
{
    if parts.len() == 0 {
        Seq::empty()
    } else if parts.len() == 1 {
        parts[0]
    } else {
        parts[0] + sep + join_with(parts.subrange(1, parts.len() as int), sep)
    }
}

/// Splitting always yields at least one part.
pub proof fn law_split_yields_a_part(s: Seq<char>, sep: Seq<char>)
    ensures
        split_spec(s, sep).len() >= 1,
{
}

/// Splitting loses, changes and reorders nothing: joining the parts back
/// with the separator reconstructs the content exactly.
pub proof fn law_split_join_roundtrip(s: Seq<char>, sep: Seq<char>)
    requires
        sep.len() >= 1,
    ensures
        join_with(split_spec(s, sep), sep) == s,
    decreases s.len(),
{
    let f = find_at(s, sep) as int;
    let k = sep.len() as int;
    if f + k <= s.len() {
        lemma_find_at_props(s, sep);
        assert(match_at(s, sep, f));
        let rest = s.subrange(f + k, s.len() as int);
        law_split_join_roundtrip(rest, sep);
        law_split_yields_a_part(rest, sep);
        let parts = split_spec(s, sep);
        assert(parts[0] == s.subrange(0, f));
        assert(parts.subrange(1, parts.len() as int) =~= split_spec(rest, sep));
        assert(s =~= s.subrange(0, f) + s.subrange(f, f + k) + rest);
    }
}

/// No part produced by the split still contains the separator.
pub proof fn law_split_parts_separator_free(s: Seq<char>, sep: Seq<char>, i: int)
    requires
        sep.len() >= 1,
        0 <= i < split_spec(s, sep).len(),
    ensures
        forall|j: int| !match_at(split_spec(s, sep)[i], sep, j),
    decreases s.len(),
{
    let f = find_at(s, sep) as int;
    let k = sep.len() as int;
    lemma_find_at_props(s, sep);
    if f + k <= s.len() {
        let part = s.subrange(0, f);
        let rest = s.subrange(f + k, s.len() as int);
        let parts = split_spec(s, sep);
        assert(parts.subrange(1, parts.len() as int) =~= split_spec(rest, sep));
        if i == 0 {
            assert forall|j: int| !match_at(part, sep, j) by {
                if 0 <= j && j + k <= part.len() {
                    assert(part.subrange(j, j + k) =~= s.subrange(j, j + k));
                    assert(!match_at(s, sep, j));
                }
            }
        } else {
            law_split_parts_separator_free(rest, sep, i - 1);
            assert(parts[i] == split_spec(rest, sep)[i - 1]);
        }
    } else {
        assert forall|j: int| !match_at(split_spec(s, sep)[i], sep, j) by {
            assert(split_spec(s, sep)[i] == s);
            assert(!match_at(s, sep, j));
        }
    }
}

/// Two consecutive reads with no intervening change to the file: a read that
/// saw size `size` leaves the cursor at `size`, and the next planning pass
/// for that same size fetches nothing and leaves the cursor unchanged.
pub proof fn law_second_read_is_empty(size: u64)
    ensures
        plan_spec(size, true, size) == (size, ReadPlan::Skip),
{
}

/// Absent truncation, planning never moves the cursor backwards.
pub proof fn law_position_monotonic(position: u64, file_exists: bool, current_size: u64)
    requires
        position <= current_size,
    ensures
        plan_spec(position, file_exists, current_size).0 >= position,
{
}

/// The position only ever moves backwards when a truncation was detected,
/// and then it resets to exactly zero.
pub proof fn law_position_resets_only_on_truncation(
    position: u64,
    file_exists: bool,
    current_size: u64,
)
    ensures
        plan_spec(position, file_exists, current_size).0 < position ==> current_size < position
            && plan_spec(position, file_exists, current_size).0 == 0,
{
}

/// A batch is only ever emitted when at least one segment survived the
/// filtering: there is no empty batch.
pub proof fn law_batch_never_empty(decoded: Seq<char>, sep: Seq<char>)
    ensures
        match batch_spec(decoded, sep) {
            Some(parts) => parts.len() > 0,
            None => true,
        },
{
}

/// When the file shrank below the tracked position, the next plan starts
/// over at the beginning of the file and fetches all of its current bytes,
/// so the following batch re-emits the file's full filtered content.
pub proof fn law_truncation_recovery(position: u64, current_size: u64)
    requires
        current_size < position,
    ensures
        plan_spec(position, true, current_size).0 == 0,
        current_size > 0 ==> plan_spec(position, true, current_size).1 == (ReadPlan::Fetch {
            offset: 0,
            len: current_size,
        }),
        current_size == 0 ==> plan_spec(position, true, current_size).1 == ReadPlan::Skip,
{
}

} // verus!
