//! The path-list grammar: splitting a raw option value into non-empty
//! tokens (extra spaces contribute nothing), validating each token as a
//! path, and extracting a path's file name.
//!
//! A path is one or more segments, each segment one or more characters
//! other than `/`, `:` and the null character, segments separated by `/`,
//! with an optional leading `/`. Character-wise that means: non-empty, free
//! of `:` and null, free of `//`, and not ending in `/`.

use crate::errors::ValidationError;
use vstd::prelude::*;
use vstd::string::*;

verus! {

/// A character that may appear inside a path segment: anything but the
/// separator `/`, the drive marker `:`, and the null character.
pub open spec fn is_segment_char(c: char) -> bool {
    c != '/' && c != ':' && c != '\0'
}

/// A valid path token: non-empty, no `:` or null anywhere, no empty
/// segment (`//`), and no trailing separator.
pub open spec fn valid_path(s: Seq<char>) -> bool {
    &&& s.len() > 0
    &&& (forall|i: int| 0 <= i < s.len() ==> s[i] != ':' && s[i] != '\0')
    &&& (forall|i: int| 0 <= i < s.len() - 1 ==> !((#[trigger] s[i]) == '/' && s[i + 1] == '/'))
    &&& s[s.len() - 1] != '/'
}

/// Decides [`valid_path`] for a token.
pub fn check_path(s: &str) -> (r: bool)
    ensures
        r == valid_path(s@),
{
    let n = s.unicode_len();
    if n == 0 {
        return false;
    }
    if s.get_char(n - 1) == '/' {
        return false;
    }
    let mut i: usize = 0;
    while i < n
        invariant
            0 <= i <= n,
            n == s@.len(),
            forall|j: int| 0 <= j < i ==> s@[j] != ':' && s@[j] != '\0',
            forall|j: int| 0 <= j < i && j < n - 1 ==> !((#[trigger] s@[j]) == '/' && s@[j + 1] == '/'),
        decreases n - i,
    {
        let c = s.get_char(i);
        if c == ':' || c == '\0' {
            return false;
        }
        if c == '/' && i + 1 < n && s.get_char(i + 1) == '/' {
            return false;
        }
        i += 1;
    }
    true
}

/// What splitting a string on the space character yields: always at least
/// one token, empty tokens where spaces are adjacent or at either end.
pub open spec fn split_spaces(s: Seq<char>) -> Seq<Seq<char>>
    decreases s.len(),
{
    if s.len() == 0 {
        seq![Seq::<char>::empty()]
    } else if s[0] == ' ' {
        seq![Seq::<char>::empty()] + split_spaces(s.subrange(1, s.len() as int))
    } else {
        let rest = split_spaces(s.subrange(1, s.len() as int));
        seq![seq![s[0]] + rest[0]] + rest.subrange(1, rest.len() as int)
    }
}

/// Joining tokens back with a single space between each two.
pub open spec fn join_spaces(ts: Seq<Seq<char>>) -> Seq<char>
    decreases ts.len(),
{
    if ts.len() == 0 {
        Seq::<char>::empty()
    } else if ts.len() == 1 {
        ts[0]
    } else {
        ts[0] + seq![' '] + join_spaces(ts.subrange(1, ts.len() as int))
    }
}

/// Splitting never yields an empty token list.
pub proof fn lemma_split_spaces_len(s: Seq<char>)
    ensures
        split_spaces(s).len() >= 1,
    decreases s.len(),
{
    if s.len() > 0 {
        lemma_split_spaces_len(s.subrange(1, s.len() as int));
    }
}

/// Splitting on spaces loses nothing: joining the tokens with single
/// spaces restores the input exactly, whatever the input was.
pub proof fn lemma_split_join(s: Seq<char>)
    ensures
        join_spaces(split_spaces(s)) == s,
    decreases s.len(),
{
    if s.len() == 0 {
        assert(join_spaces(split_spaces(s)) =~= s);
    } else {
        let tail = s.subrange(1, s.len() as int);
        let rest = split_spaces(tail);
        lemma_split_spaces_len(tail);
        lemma_split_join(tail);
        if s[0] == ' ' {
            assert(split_spaces(s) == seq![Seq::<char>::empty()] + rest);
            let ts = seq![Seq::<char>::empty()] + rest;
            assert(ts.subrange(1, ts.len() as int) =~= rest);
            assert(ts.len() >= 2);
            assert(join_spaces(ts) == ts[0] + seq![' '] + join_spaces(rest));
            assert(join_spaces(ts) =~= s);
        } else {
            let ts = seq![seq![s[0]] + rest[0]] + rest.subrange(1, rest.len() as int);
            assert(split_spaces(s) == ts);
            if rest.len() == 1 {
                assert(ts.len() == 1);
                assert(join_spaces(rest) == rest[0]);
                assert(join_spaces(ts) == seq![s[0]] + rest[0]);
                assert(join_spaces(ts) =~= s);
            } else {
                let rtail = rest.subrange(1, rest.len() as int);
                assert(ts.len() == 1 + rtail.len());
                assert(ts.len() >= 2);
                assert(ts.subrange(1, ts.len() as int) =~= rtail);
                assert(join_spaces(ts) == ts[0] + seq![' '] + join_spaces(rtail));
                assert(join_spaces(rest) == rest[0] + seq![' '] + join_spaces(rtail));
                assert(join_spaces(rest) == tail);
                assert(join_spaces(ts) =~= seq![s[0]] + (rest[0] + seq![' '] + join_spaces(rtail)));
                assert(join_spaces(ts) =~= s);
            }
        }
    }
}

proof fn lemma_split_at_first_space(t: Seq<char>, k: int)
    requires
        0 <= k < t.len(),
        t[k] == ' ',
        forall|j: int| 0 <= j < k ==> t[j] != ' ',
    ensures
        split_spaces(t) == seq![t.subrange(0, k)] + split_spaces(t.subrange(k + 1, t.len() as int)),
    decreases k,
{
    let tail = t.subrange(1, t.len() as int);
    if k == 0 {
        assert(t.subrange(0, 0) =~= Seq::<char>::empty());
        assert(t.subrange(1, t.len() as int) =~= t.subrange(k + 1, t.len() as int));
    } else {
        assert(tail[k - 1] == ' ');
        assert(forall|j: int| 0 <= j < k - 1 ==> tail[j] != ' ');
        lemma_split_at_first_space(tail, k - 1);
        let rest = split_spaces(tail);
        assert(tail.subrange(0, k - 1) =~= t.subrange(1, k));
        assert(tail.subrange(k, tail.len() as int) =~= t.subrange(k + 1, t.len() as int));
        let far = split_spaces(t.subrange(k + 1, t.len() as int));
        assert(rest == seq![t.subrange(1, k)] + far);
        assert(rest[0] == t.subrange(1, k));
        assert(rest.subrange(1, rest.len() as int) =~= far);
        assert(seq![t[0]] + rest[0] =~= t.subrange(0, k));
        assert(split_spaces(t) == seq![t.subrange(0, k)] + far);
    }
}

proof fn lemma_split_no_space(t: Seq<char>)
    requires
        forall|j: int| 0 <= j < t.len() ==> t[j] != ' ',
    ensures
        split_spaces(t) == seq![t],
    decreases t.len(),
{
    if t.len() == 0 {
        assert(split_spaces(t) =~~= seq![t]);
    } else {
        let tail = t.subrange(1, t.len() as int);
        lemma_split_no_space(tail);
        let rest = split_spaces(tail);
        assert(rest.subrange(1, rest.len() as int) =~= Seq::<Seq<char>>::empty());
        assert(seq![t[0]] + tail =~= t);
        assert(rest[0] == tail);
        assert(seq![t[0]] + rest[0] == t);
        assert(t[0] != ' ');
        assert(split_spaces(t) == seq![seq![t[0]] + rest[0]] + rest.subrange(1, rest.len() as int));
        assert(split_spaces(t) =~= seq![t]);
    }
}

/// Splits a raw option value on the space character, exactly as
/// [`split_spaces`] describes.
pub fn split_spaces_exec(s: &str) -> (r: Vec<String>)
    ensures
        r.deep_view() == split_spaces(s@),
        r@.len() >= 1,
{
    let n = s.unicode_len();
    let mut tokens: Vec<String> = Vec::new();
    let mut start: usize = 0;
    let mut i: usize = 0;
    proof {
        assert(s@.subrange(0, n as int) =~= s@);
        assert(tokens.deep_view() =~= Seq::<Seq<char>>::empty());
        assert(tokens.deep_view() + split_spaces(s@) =~= split_spaces(s@));
    }
    while i < n
        invariant
            0 <= start <= i <= n,
            n == s@.len(),
            forall|j: int| start <= j < i ==> s@[j] != ' ',
            split_spaces(s@) == tokens.deep_view() + split_spaces(
                s@.subrange(start as int, n as int),
            ),
        decreases n - i,
    {
        if s.get_char(i) == ' ' {
            let tok = String::from_str(s.substring_char(start, i));
            let ghost prev = tokens.deep_view();
            tokens.push(tok);
            proof {
                let suffix = s@.subrange(start as int, n as int);
                lemma_split_at_first_space(suffix, i - start);
                assert(suffix.subrange(0, i - start) =~= s@.subrange(start as int, i as int));
                assert(suffix.subrange(i - start + 1, suffix.len() as int) =~= s@.subrange(
                    i + 1,
                    n as int,
                ));
                assert(tokens.deep_view() =~= prev.push(tok@));
                assert(prev.push(tok@) =~= prev + seq![tok@]);
                assert((prev + seq![tok@]) + split_spaces(s@.subrange(i + 1, n as int)) =~= prev + (
                seq![tok@] + split_spaces(s@.subrange(i + 1, n as int))));
            }
            start = i + 1;
        }
        i += 1;
    }
    let tok = String::from_str(s.substring_char(start, n));
    let ghost prev = tokens.deep_view();
    tokens.push(tok);
    proof {
        lemma_split_no_space(s@.subrange(start as int, n as int));
        assert(tokens.deep_view() =~= prev.push(tok@));
        assert(prev.push(tok@) =~= prev + seq![tok@]);
        assert(tokens.deep_view() == split_spaces(s@));
    }
    tokens
}

/// The split's tokens with the empty ones dropped: adjacent spaces and
/// spaces at either end contribute nothing.
pub open spec fn drop_empty(ts: Seq<Seq<char>>) -> Seq<Seq<char>>
    decreases ts.len(),
{
    if ts.len() == 0 {
        Seq::<Seq<char>>::empty()
    } else if ts[0].len() == 0 {
        drop_empty(ts.drop_first())
    } else {
        seq![ts[0]] + drop_empty(ts.drop_first())
    }
}

/// The path tokens of a raw option value: split on spaces, empty tokens
/// dropped.
pub open spec fn nonempty_tokens(s: Seq<char>) -> Seq<Seq<char>> {
    drop_empty(split_spaces(s))
}

/// The input yields at least one token, and every token is a valid path.
/// An empty or all-space input yields none and so fails this.
pub open spec fn path_list_wf(s: Seq<char>) -> bool {
    &&& nonempty_tokens(s).len() > 0
    &&& forall|i: int|
        0 <= i < nonempty_tokens(s).len() ==> valid_path(#[trigger] nonempty_tokens(s)[i])
}

/// One group of file paths: the validated result of parsing one
/// occurrence of the files option.
#[derive(Clone, Debug)]
pub struct AssignmentFiles {
    /// The validated path tokens, in the order they were supplied.
    pub paths: Vec<String>,
}

impl AssignmentFiles {
    /// A well-formed group is non-empty and holds only valid paths.
    pub open spec fn wf(&self) -> bool {
        let ps = self.paths.deep_view();
        &&& ps.len() > 0
        &&& forall|i: int| 0 <= i < ps.len() ==> valid_path(#[trigger] ps[i])
    }

    /// Parses one raw option value into a group: splits it on spaces,
    /// drops the empty tokens that extra spaces leave, and validates the
    /// rest. Succeeds exactly on well-formed path lists, and then returns
    /// the tokens in order; otherwise reports that no paths were supplied,
    /// or the first offending token.
    pub fn parse(s: &str) -> (r: Result<AssignmentFiles, ValidationError>)
        ensures
            r is Ok <==> path_list_wf(s@),
            (r matches Ok(g) ==> g.paths.deep_view() == nonempty_tokens(s@) && g.wf()),
            (r matches Err(e) ==> {
                ||| (nonempty_tokens(s@).len() == 0 && e == ValidationError::EmptyPathList)
                ||| exists|i: int|
                    {
                        &&& 0 <= i < nonempty_tokens(s@).len()
                        &&& !valid_path(#[trigger] nonempty_tokens(s@)[i])
                        &&& (forall|j: int| 0 <= j < i ==> valid_path(nonempty_tokens(s@)[j]))
                        &&& (e matches ValidationError::InvalidPath { path } && path@
                            == nonempty_tokens(s@)[i])
                    }
            }),
    {
        let tokens = split_spaces_exec(s);
        let ghost raw = split_spaces(s@);
        let ghost ne = nonempty_tokens(s@);
        let mut kept: Vec<String> = Vec::new();
        let mut i: usize = 0;
        proof {
            assert(raw.skip(0) =~= raw);
            assert(kept.deep_view() + drop_empty(raw) =~= drop_empty(raw));
        }
        while i < tokens.len()
            invariant
                0 <= i <= tokens@.len(),
                tokens.deep_view() == raw,
                raw == split_spaces(s@),
                ne == nonempty_tokens(s@),
                ne == kept.deep_view() + drop_empty(raw.skip(i as int)),
                forall|j: int|
                    0 <= j < kept.deep_view().len() ==> valid_path(#[trigger] kept.deep_view()[j]),
            decreases tokens@.len() - i,
        {
            let tok = &tokens[i];
            proof {
                assert(tok@ == raw[i as int]);
                assert(raw.skip(i as int)[0] == raw[i as int]);
                assert(raw.skip(i as int).drop_first() =~= raw.skip(i + 1));
            }
            if !tok.as_str().is_empty() {
                proof {
                    assert(drop_empty(raw.skip(i as int)) == seq![raw[i as int]] + drop_empty(
                        raw.skip(i + 1),
                    ));
                }
                if !check_path(tok.as_str()) {
                    proof {
                        let k = kept.deep_view().len() as int;
                        assert(ne =~= (kept.deep_view() + seq![raw[i as int]]) + drop_empty(
                            raw.skip(i + 1),
                        ));
                        assert(ne[k] == raw[i as int]);
                        assert(!valid_path(nonempty_tokens(s@)[k]));
                        assert(!path_list_wf(s@));
                    }
                    return Err(ValidationError::InvalidPath { path: tok.clone() });
                }
                let ghost prev = kept.deep_view();
                kept.push(tok.clone());
                proof {
                    assert(kept.deep_view() =~= prev.push(tok@));
                    assert(prev + (seq![raw[i as int]] + drop_empty(raw.skip(i + 1)))
                        =~= kept.deep_view() + drop_empty(raw.skip(i + 1)));
                }
            } else {
                proof {
                    assert(drop_empty(raw.skip(i as int)) == drop_empty(raw.skip(i + 1)));
                }
            }
            i += 1;
        }
        proof {
            assert(raw.skip(raw.len() as int) =~= Seq::<Seq<char>>::empty());
            assert(kept.deep_view() + drop_empty(Seq::<Seq<char>>::empty()) =~= kept.deep_view());
            assert(ne == kept.deep_view());
        }
        if kept.len() == 0 {
            proof {
                assert(!path_list_wf(s@));
            }
            return Err(ValidationError::EmptyPathList);
        }
        Ok(AssignmentFiles { paths: kept })
    }
}

/// Dropping empty tokens from a list that has none is the identity.
proof fn lemma_drop_empty_identity(ts: Seq<Seq<char>>)
    requires
        forall|i: int| 0 <= i < ts.len() ==> (#[trigger] ts[i]).len() > 0,
    ensures
        drop_empty(ts) == ts,
    decreases ts.len(),
{
    if ts.len() > 0 {
        lemma_drop_empty_identity(ts.drop_first());
        assert(seq![ts[0]] + ts.drop_first() =~= ts);
    }
}

/// Parsing a well-formed path list then re-joining the tokens with single
/// spaces restores the raw input exactly, as long as the input is itself
/// single-spaced: when extra spaces left empty tokens to drop, the
/// re-join is the single-spaced normal form instead.
pub proof fn lemma_parse_round_trip(s: Seq<char>)
    requires
        path_list_wf(s),
        forall|i: int| 0 <= i < split_spaces(s).len() ==> (#[trigger] split_spaces(s)[i]).len() > 0,
    ensures
        join_spaces(nonempty_tokens(s)) == s,
{
    lemma_drop_empty_identity(split_spaces(s));
    lemma_split_join(s);
}

/// The empty input splits into a single empty token, which is dropped,
/// so no paths remain and the parser rejects a lone empty string.
pub proof fn lemma_rejects_empty(s: Seq<char>)
    requires
        s.len() == 0,
    ensures
        !path_list_wf(s),
{
    let ts = split_spaces(s);
    assert(ts.len() == 1 && ts[0].len() == 0);
    assert(ts.drop_first() =~= Seq::<Seq<char>>::empty());
    assert(drop_empty(Seq::<Seq<char>>::empty()) =~= Seq::<Seq<char>>::empty());
    assert(drop_empty(ts) == drop_empty(ts.drop_first()));
    assert(nonempty_tokens(s).len() == 0);
}

/// Every non-space character of the input lands inside some token of the
/// split, at the returned token and offset.
proof fn lemma_char_lands_in_token(s: Seq<char>, i: int) -> (w: (int, int))
    requires
        0 <= i < s.len(),
        s[i] != ' ',
    ensures
        ({
            let ts = split_spaces(s);
            &&& 0 <= w.0 < ts.len()
            &&& 0 <= w.1 < ts[w.0].len()
            &&& ts[w.0][w.1] == s[i]
        }),
    decreases s.len(),
{
    let tail = s.subrange(1, s.len() as int);
    let rest = split_spaces(tail);
    if s[0] == ' ' {
        let prior = lemma_char_lands_in_token(tail, i - 1);
        let w = (prior.0 + 1, prior.1);
        assert(split_spaces(s)[w.0] == rest[prior.0]);
        w
    } else {
        let ts = split_spaces(s);
        assert(ts == seq![seq![s[0]] + rest[0]] + rest.subrange(1, rest.len() as int));
        if i == 0 {
            assert(ts[0] == seq![s[0]] + rest[0]);
            assert(ts[0][0] == s[0]);
            (0, 0)
        } else {
            let prior = lemma_char_lands_in_token(tail, i - 1);
            if prior.0 == 0 {
                assert(ts[0] == seq![s[0]] + rest[0]);
                assert(ts[0][prior.1 + 1] == rest[0][prior.1]);
                (0, prior.1 + 1)
            } else {
                assert(ts[prior.0] == rest.subrange(1, rest.len() as int)[prior.0 - 1]);
                assert(ts[prior.0] == rest[prior.0]);
                (prior.0, prior.1)
            }
        }
    }
}

/// A non-empty token survives the dropping of empty ones, at the
/// returned position.
proof fn lemma_nonempty_token_kept(ts: Seq<Seq<char>>, k: int) -> (m: int)
    requires
        0 <= k < ts.len(),
        ts[k].len() > 0,
    ensures
        0 <= m < drop_empty(ts).len(),
        drop_empty(ts)[m] == ts[k],
    decreases ts.len(),
{
    if k == 0 {
        assert(drop_empty(ts) == seq![ts[0]] + drop_empty(ts.drop_first()));
        0
    } else {
        let prior = lemma_nonempty_token_kept(ts.drop_first(), k - 1);
        if ts[0].len() == 0 {
            prior
        } else {
            assert(drop_empty(ts) == seq![ts[0]] + drop_empty(ts.drop_first()));
            prior + 1
        }
    }
}

/// An input one of whose characters is a `:` or a null is rejected: the
/// character always lands inside a token, that token is not empty and so
/// is kept, and no valid path holds such a character.
pub proof fn lemma_rejects_colon_or_null(s: Seq<char>, i: int)
    requires
        0 <= i < s.len(),
        s[i] == ':' || s[i] == '\0',
    ensures
        !path_list_wf(s),
{
    let w = lemma_char_lands_in_token(s, i);
    let ts = split_spaces(s);
    let m = lemma_nonempty_token_kept(ts, w.0);
    assert(!valid_path(nonempty_tokens(s)[m]));
}

/// The longest suffix made of segment characters only.
pub open spec fn seg_suffix(s: Seq<char>) -> Seq<char>
    decreases s.len(),
{
    if s.len() == 0 || !is_segment_char(s[s.len() - 1]) {
        Seq::<char>::empty()
    } else {
        seg_suffix(s.drop_last()) + seq![s[s.len() - 1]]
    }
}

/// The last maximal run of segment characters: a path's display name.
/// On a valid path this is the text after the last `/`, or the whole
/// path when it has none.
pub open spec fn last_segment(s: Seq<char>) -> Seq<char>
    decreases s.len(),
{
    if s.len() == 0 {
        Seq::<char>::empty()
    } else if is_segment_char(s[s.len() - 1]) {
        seg_suffix(s)
    } else {
        last_segment(s.drop_last())
    }
}

/// At least one segment character occurs: the name extraction is defined.
pub open spec fn has_segment_char(s: Seq<char>) -> bool {
    exists|i: int| 0 <= i < s.len() && is_segment_char(s[i])
}

/// A valid path always has a segment character (its last character).
pub proof fn lemma_valid_path_has_segment_char(s: Seq<char>)
    requires
        valid_path(s),
    ensures
        has_segment_char(s),
{
    assert(is_segment_char(s[s.len() - 1]));
}

proof fn lemma_last_segment_cut(s: Seq<char>, e: int)
    requires
        0 < e <= s.len(),
        forall|j: int| e <= j < s.len() ==> !is_segment_char(#[trigger] s[j]),
        is_segment_char(s[e - 1]),
    ensures
        last_segment(s) == seg_suffix(s.subrange(0, e)),
    decreases s.len() - e,
{
    if e == s.len() {
        assert(s.subrange(0, e) =~= s);
    } else {
        assert(!is_segment_char(s[s.len() - 1]));
        let front = s.drop_last();
        assert(front =~= s.subrange(0, s.len() - 1));
        lemma_last_segment_cut(front, e);
        assert(front.subrange(0, e) =~= s.subrange(0, e));
    }
}

proof fn lemma_seg_suffix_run(t: Seq<char>, b: int)
    requires
        0 <= b <= t.len(),
        forall|j: int| b <= j < t.len() ==> is_segment_char(#[trigger] t[j]),
        b == 0 || !is_segment_char(t[b - 1]),
    ensures
        seg_suffix(t) == t.subrange(b, t.len() as int),
    decreases t.len() - b,
{
    if b == t.len() {
        assert(seg_suffix(t) =~= t.subrange(b, t.len() as int));
    } else {
        assert(is_segment_char(t[t.len() - 1]));
        let front = t.drop_last();
        lemma_seg_suffix_run(front, b);
        assert(front.subrange(b, front.len() as int) =~= t.subrange(b, t.len() - 1));
        assert(t.subrange(b, t.len() - 1) + seq![t[t.len() - 1]] =~= t.subrange(b, t.len() as int));
    }
}

/// Decides [`is_segment_char`] for the character at a position.
pub(crate) fn segment_char_at(s: &str, i: usize) -> (r: bool)
    requires
        i < s@.len(),
    ensures
        r == is_segment_char(s@[i as int]),
{
    let c = s.get_char(i);
    c != '/' && c != ':' && c != '\0'
}

/// Derives a path's display name: the last maximal run of segment
/// characters, which on a valid path is everything after the last `/`.
pub fn file_name_of(path: &str) -> (r: String)
    requires
        has_segment_char(path@),
    ensures
        r@ == last_segment(path@),
{
    let n = path.unicode_len();
    let mut e: usize = n;
    while e > 0 && !segment_char_at(path, e - 1)
        invariant
            0 <= e <= n,
            n == path@.len(),
            has_segment_char(path@),
            forall|j: int| e <= j < n ==> !is_segment_char(#[trigger] path@[j]),
            exists|i: int| 0 <= i < e && is_segment_char(path@[i]),
        decreases e,
    {
        e -= 1;
    }
    let mut b: usize = e - 1;
    while b > 0 && segment_char_at(path, b - 1)
        invariant
            0 <= b < e <= n,
            n == path@.len(),
            forall|j: int| b <= j < e ==> is_segment_char(#[trigger] path@[j]),
        decreases b,
    {
        b -= 1;
    }
    let r = String::from_str(path.substring_char(b, e));
    proof {
        lemma_last_segment_cut(path@, e as int);
        let t = path@.subrange(0, e as int);
        lemma_seg_suffix_run(t, b as int);
        assert(t.subrange(b as int, t.len() as int) =~= path@.subrange(b as int, e as int));
    }
    r
}

/// On a valid path that contains a separator, the display name is exactly
/// the text after the last `/`.
pub proof fn lemma_name_after_last_slash(s: Seq<char>, k: int)
    requires
        valid_path(s),
        0 <= k < s.len(),
        s[k] == '/',
        forall|j: int| k < j < s.len() ==> s[j] != '/',
    ensures
        last_segment(s) == s.subrange(k + 1, s.len() as int),
{
    assert(is_segment_char(s[s.len() - 1]));
    lemma_seg_suffix_run(s, k + 1);
}

/// On a valid path with no separator, the display name is the whole path.
pub proof fn lemma_name_without_slash(s: Seq<char>)
    requires
        valid_path(s),
        forall|j: int| 0 <= j < s.len() ==> s[j] != '/',
    ensures
        last_segment(s) == s,
{
    assert(is_segment_char(s[s.len() - 1]));
    lemma_seg_suffix_run(s, 0);
    assert(s.subrange(0, s.len() as int) =~= s);
}

} // verus!
