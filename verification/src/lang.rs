//! The language-tag resolver: finds the last file-extension occurrence in
//! a display name and maps it to a fenced-code-block language tag.
//!
//! An extension occurrence is a dot followed by one to three non-separator
//! characters, taken greedily; occurrences are found left to right without
//! overlap, and the last one counts. The supported table is closed: `.c`
//! and `.h` map to `c`, `.cpp` and `.hpp` map to `cpp`.

use crate::errors::ExtensionError;
use crate::paths::is_segment_char;
use crate::paths::segment_char_at;
use vstd::prelude::*;
use vstd::string::*;

verus! {

/// How many consecutive segment characters stand at `i`, counting at most
/// `cap` of them.
pub open spec fn capped_run(s: Seq<char>, i: int, cap: int) -> int
    decreases cap,
{
    if cap <= 0 || i < 0 || i >= s.len() || !is_segment_char(s[i]) {
        0
    } else {
        1 + capped_run(s, i + 1, cap - 1)
    }
}

/// An extension occurrence starts at `i`: a dot with at least one
/// segment character after it.
pub open spec fn ext_match_at(s: Seq<char>, i: int) -> bool {
    0 <= i < s.len() && s[i] == '.' && capped_run(s, i + 1, 3) >= 1
}

/// A run count is non-negative and never runs past the end.
proof fn lemma_capped_run_bounds(s: Seq<char>, p: int, cap: int)
    ensures
        0 <= capped_run(s, p, cap),
        capped_run(s, p, cap) > 0 ==> p + capped_run(s, p, cap) <= s.len(),
    decreases cap,
{
    if !(cap <= 0 || p < 0 || p >= s.len() || !is_segment_char(s[p])) {
        lemma_capped_run_bounds(s, p + 1, cap - 1);
    }
}

#[via_fn]
proof fn last_ext_from_decreases(s: Seq<char>, i: int) {
    lemma_capped_run_bounds(s, i + 1, 3);
}

/// The last extension occurrence in `s` at or after position `i`, under
/// the greedy left-to-right, non-overlapping scan.
pub open spec fn last_ext_from(s: Seq<char>, i: int) -> Option<Seq<char>>
    decreases s.len() - i,
    via last_ext_from_decreases
{
    if i >= s.len() {
        None
    } else if ext_match_at(s, i) {
        let k = capped_run(s, i + 1, 3);
        match last_ext_from(s, i + 1 + k) {
            Some(m) => Some(m),
            None => Some(s.subrange(i, i + 1 + k)),
        }
    } else {
        last_ext_from(s, i + 1)
    }
}

/// The last extension occurrence in `s`, if any.
pub open spec fn last_extension(s: Seq<char>) -> Option<Seq<char>> {
    last_ext_from(s, 0)
}

/// The fenced-code-block language tag for a supported extension.
#[derive(Clone, Copy, PartialEq, Eq, Structural, Debug)]
pub enum LanguageTag {
    /// `.c` and `.h` files.
    C,
    /// `.cpp` and `.hpp` files.
    Cpp,
}

/// The display text of a tag, as it follows the opening fence.
pub open spec fn tag_text(t: LanguageTag) -> Seq<char> {
    match t {
        LanguageTag::C => seq!['c'],
        LanguageTag::Cpp => seq!['c', 'p', 'p'],
    }
}

/// The closed extension table.
pub open spec fn tag_of_ext(e: Seq<char>) -> Option<LanguageTag> {
    if e == seq!['.', 'c'] || e == seq!['.', 'h'] {
        Some(LanguageTag::C)
    } else if e == seq!['.', 'c', 'p', 'p'] || e == seq!['.', 'h', 'p', 'p'] {
        Some(LanguageTag::Cpp)
    } else {
        None
    }
}

impl LanguageTag {
    /// The display text of the tag.
    pub fn as_str(&self) -> (r: &'static str)
        ensures
            r@ == tag_text(*self),
    {
        match self {
            LanguageTag::C => {
                let r = "c";
                proof {
                    reveal_strlit("c");
                    assert(r@ =~= tag_text(LanguageTag::C));
                }
                r
            },
            LanguageTag::Cpp => {
                let r = "cpp";
                proof {
                    reveal_strlit("cpp");
                    assert(r@ =~= tag_text(LanguageTag::Cpp));
                }
                r
            },
        }
    }
}

proof fn lemma_capped_run_value(s: Seq<char>, p: int, cap: int, k: int)
    requires
        0 <= p,
        0 <= k <= cap,
        p + k <= s.len(),
        forall|j: int| p <= j < p + k ==> is_segment_char(#[trigger] s[j]),
        k == cap || p + k == s.len() || !is_segment_char(s[p + k]),
    ensures
        capped_run(s, p, cap) == k,
    decreases k,
{
    if k > 0 {
        assert(is_segment_char(s[p]));
        lemma_capped_run_value(s, p + 1, cap - 1, k - 1);
    }
}

/// Which option comes out of combining a later find with an earlier one:
/// the later wins.
spec fn opt_or(a: Option<Seq<char>>, b: Option<Seq<char>>) -> Option<Seq<char>> {
    match a {
        Some(m) => Some(m),
        None => b,
    }
}

/// Locates the last extension occurrence in a display name and maps it
/// through the closed table. Reports the raw extension text when it is
/// unsupported, and the name and original path when none occurs at all.
pub fn resolve_language_tag(file: &str, file_path: &str) -> (r: Result<
    LanguageTag,
    ExtensionError,
>)
    ensures
        (r matches Ok(t) ==> last_extension(file@) matches Some(e) && tag_of_ext(e)
            == Some::<LanguageTag>(t)),
        (r matches Err(ExtensionError::Unsupported { extension }) ==> last_extension(file@)
            matches Some(e) && extension@ == e && tag_of_ext(e) is None),
        (r matches Err(ExtensionError::Missing { file: f, path: p }) ==> last_extension(file@)
            is None && f@ == file@ && p@ == file_path@),
        r is Ok <==> (last_extension(file@) matches Some(e) && tag_of_ext(e) is Some),
{
    let n = file.unicode_len();
    let mut i: usize = 0;
    let mut found = false;
    let mut start: usize = 0;
    let mut klen: usize = 0;
    let ghost mut acc: Option<Seq<char>> = None;
    while i < n
        invariant
            0 <= i,
            n == file@.len(),
            found ==> start + 1 + klen <= n && 1 <= klen <= 3 && file@[start as int] == '.' && acc
                == Some(file@.subrange(start as int, start + 1 + klen)),
            !found ==> acc is None,
            opt_or(last_ext_from(file@, i as int), acc) == last_extension(file@),
        decreases n - i,
    {
        if file.get_char(i) == '.' && i + 1 < n && segment_char_at(file, i + 1) {
            let mut k: usize = 1;
            while k < 3 && i + 1 + k < n && segment_char_at(file, i + 1 + k)
                invariant
                    1 <= k <= 3,
                    i + 1 + k <= n,
                    n == file@.len(),
                    forall|j: int| i + 1 <= j < i + 1 + k ==> is_segment_char(#[trigger] file@[j]),
                decreases 3 - k,
            {
                k += 1;
            }
            proof {
                lemma_capped_run_value(file@, i + 1, 3, k as int);
                assert(ext_match_at(file@, i as int));
            }
            found = true;
            start = i;
            klen = k;
            proof {
                acc = Some(file@.subrange(i as int, i + 1 + k));
            }
            i = i + 1 + k;
        } else {
            proof {
                if i + 1 < n && file@[i as int] == '.' {
                    assert(!is_segment_char(file@[i + 1]));
                    assert(capped_run(file@, i + 1, 3) == 0);
                }
                if i + 1 == n && file@[i as int] == '.' {
                    assert(capped_run(file@, i + 1, 3) == 0);
                }
            }
            i += 1;
        }
    }
    if !found {
        return Err(
            ExtensionError::Missing {
                file: String::from_str(file),
                path: String::from_str(file_path),
            },
        );
    }
    let ghost e = acc.unwrap();
    proof {
        assert(last_extension(file@) == Some(e));
        assert(e == file@.subrange(start as int, start + 1 + klen));
        assert(e.len() == 1 + klen);
        assert(e[0] == file@[start as int]);
    }
    if klen == 1 {
        let c1 = file.get_char(start + 1);
        proof {
            assert(e[1] == file@[start + 1]);
        }
        if c1 == 'c' {
            proof {
                assert(e =~= seq!['.', 'c']);
            }
            Ok(LanguageTag::C)
        } else if c1 == 'h' {
            proof {
                assert(e =~= seq!['.', 'h']);
            }
            Ok(LanguageTag::C)
        } else {
            let extension = String::from_str(file.substring_char(start, start + 2));
            proof {
                assert(tag_of_ext(e) is None);
            }
            Err(ExtensionError::Unsupported { extension })
        }
    } else if klen == 3 {
        let c1 = file.get_char(start + 1);
        let c2 = file.get_char(start + 2);
        let c3 = file.get_char(start + 3);
        proof {
            assert(e[1] == file@[start + 1]);
            assert(e[2] == file@[start + 2]);
            assert(e[3] == file@[start + 3]);
        }
        if c1 == 'c' && c2 == 'p' && c3 == 'p' {
            proof {
                assert(e =~= seq!['.', 'c', 'p', 'p']);
            }
            Ok(LanguageTag::Cpp)
        } else if c1 == 'h' && c2 == 'p' && c3 == 'p' {
            proof {
                assert(e =~= seq!['.', 'h', 'p', 'p']);
            }
            Ok(LanguageTag::Cpp)
        } else {
            let extension = String::from_str(file.substring_char(start, start + 4));
            proof {
                assert(tag_of_ext(e) is None);
            }
            Err(ExtensionError::Unsupported { extension })
        }
    } else {
        let extension = String::from_str(file.substring_char(start, start + 1 + klen));
        proof {
            assert(e.len() == 3);
            assert(tag_of_ext(e) is None);
        }
        Err(ExtensionError::Unsupported { extension })
    }
}

} // verus!
