//! The dependency-key grammar.
//!
//! A registry key identifies one exact resolved installation.  Two encodings
//! exist, one per schema generation:
//!
//! * legacy: `/name/version` or `/name/version_suffix`, where the suffix
//!   carries peer-dependency hashes separated by `_`; a patch hash, when
//!   present, is the last `_`-separated chunk of the suffix;
//! * modern: `/name@version` followed by parenthesised annotations such as
//!   `(react@18.2.0)` or `(patch_hash=abcd)`.
//!
//! Names may be scoped (`@scope/name`).  A key that fits neither encoding
//! does not parse; callers treat such keys as not-found and never guess.

use vstd::prelude::*;

verus! {

/// The decomposition of a well-formed dependency key.
pub struct KeyParts {
    pub name: Seq<char>,
    pub version: Seq<char>,
    pub peer_suffix: Option<Seq<char>>,
    pub patch_hash: Option<Seq<char>>,
}

/// The characters that may end a package name.
pub open spec fn is_sep(c: char) -> bool {
    c == '/' || c == '@'
}

/// Index of the first occurrence of `c` at or after `from`.
pub open spec fn find_from(s: Seq<char>, from: int, c: char) -> Option<int>
    decreases s.len() - from,
{
    if from < 0 || from >= s.len() {
        None
    } else if s[from] == c {
        Some(from)
    } else {
        find_from(s, from + 1, c)
    }
}

/// Index of the first name/version separator at or after `from`.
pub open spec fn find_sep_from(s: Seq<char>, from: int) -> Option<int>
    decreases s.len() - from,
{
    if from < 0 || from >= s.len() {
        None
    } else if is_sep(s[from]) {
        Some(from)
    } else {
        find_sep_from(s, from + 1)
    }
}

/// Index of the last occurrence of `c`.
pub open spec fn rfind(s: Seq<char>, c: char) -> Option<int>
    decreases s.len(),
{
    if s.len() == 0 {
        None
    } else if s[s.len() - 1] == c {
        Some(s.len() - 1)
    } else {
        rfind(s.drop_last(), c)
    }
}

/// `pat` occurs in `s` starting at index `i`.
pub open spec fn occurs_at(s: Seq<char>, pat: Seq<char>, i: int) -> bool {
    0 <= i && i + pat.len() <= s.len() && s.subrange(i, i + pat.len() as int) == pat
}

/// Index of the first occurrence of `pat` at or after `from`.
pub open spec fn find_sub_from(s: Seq<char>, pat: Seq<char>, from: int) -> Option<int>
    decreases s.len() - from,
{
    if from < 0 || from + pat.len() > s.len() {
        None
    } else if occurs_at(s, pat, from) {
        Some(from)
    } else if from >= s.len() {
        None
    } else {
        find_sub_from(s, pat, from + 1)
    }
}

/// The annotation prefix that introduces a patch hash in the modern encoding.
pub open spec fn patch_marker() -> Seq<char> {
    seq!['(', 'p', 'a', 't', 'c', 'h', '_', 'h', 'a', 's', 'h', '=']
}

/// Where the package name ends: at the first separator, skipping the scope
/// segment of a scoped name.
pub open spec fn name_end_index(r: Seq<char>) -> Option<int> {
    if r.len() > 0 && r[0] == '@' {
        match find_from(r, 1, '/') {
            None => None,
            Some(slash) => find_sep_from(r, slash + 1),
        }
    } else {
        find_sep_from(r, 0)
    }
}

/// The patch hash encoded by a legacy suffix: its last `_`-separated chunk.
pub open spec fn legacy_patch_hash(sfx: Seq<char>) -> Seq<char> {
    match rfind(sfx, '_') {
        None => sfx,
        Some(u) => sfx.skip(u + 1),
    }
}

/// Splits a legacy `version` or `version_suffix` part.
pub open spec fn parse_legacy(name: Seq<char>, vpart: Seq<char>) -> Option<KeyParts> {
    match find_from(vpart, 0, '_') {
        None => Some(
            KeyParts { name, version: vpart, peer_suffix: None, patch_hash: None },
        ),
        Some(u) => {
            let sfx = vpart.skip(u + 1);
            if u == 0 || sfx.len() == 0 {
                None
            } else {
                Some(
                    KeyParts {
                        name,
                        version: vpart.take(u),
                        peer_suffix: Some(sfx),
                        patch_hash: Some(legacy_patch_hash(sfx)),
                    },
                )
            }
        },
    }
}

/// The patch hash encoded by a modern suffix: the content of its
/// `(patch_hash=...)` annotation, if one is present.
pub open spec fn modern_patch_hash(sfx: Seq<char>) -> Option<Seq<char>> {
    match find_sub_from(sfx, patch_marker(), 0) {
        None => None,
        Some(q) => match find_from(sfx, q + patch_marker().len() as int, ')') {
            None => None,
            Some(close) => Some(sfx.subrange(q + patch_marker().len() as int, close)),
        },
    }
}

/// Splits a modern `version` or `version(annotation)...` part.
pub open spec fn parse_modern(name: Seq<char>, vpart: Seq<char>) -> Option<KeyParts> {
    match find_from(vpart, 0, '(') {
        None => Some(
            KeyParts { name, version: vpart, peer_suffix: None, patch_hash: None },
        ),
        Some(p) => {
            if p == 0 {
                None
            } else {
                let sfx = vpart.skip(p);
                Some(
                    KeyParts {
                        name,
                        version: vpart.take(p),
                        peer_suffix: Some(sfx),
                        patch_hash: modern_patch_hash(sfx),
                    },
                )
            }
        },
    }
}

/// Decomposes a dependency key, or yields nothing on a malformed key.
pub open spec fn parse_key(s: Seq<char>) -> Option<KeyParts> {
    if s.len() == 0 || s[0] != '/' {
        None
    } else {
        let r = s.drop_first();
        match name_end_index(r) {
            None => None,
            Some(j) => {
                let vpart = r.skip(j + 1);
                if j == 0 || vpart.len() == 0 {
                    None
                } else if r[j] == '@' {
                    parse_modern(r.take(j), vpart)
                } else {
                    parse_legacy(r.take(j), vpart)
                }
            },
        }
    }
}

/// The executable decomposition of a dependency key; every part borrows
/// from the key itself.
pub struct DepPath<'a> {
    pub name: &'a str,
    pub version: &'a str,
    pub peer_suffix: Option<&'a str>,
    pub patch_hash: Option<&'a str>,
}

impl<'a> View for DepPath<'a> {
    type V = KeyParts;

    open spec fn view(&self) -> KeyParts {
        KeyParts {
            name: self.name@,
            version: self.version@,
            peer_suffix: match self.peer_suffix {
                Some(s) => Some(s@),
                None => None,
            },
            patch_hash: match self.patch_hash {
                Some(s) => Some(s@),
                None => None,
            },
        }
    }
}

fn find_char_from(s: &str, slen: usize, from: usize, c: char) -> (r: Option<usize>)
    requires
        slen as nat == s@.len(),
    ensures
        match r {
            Some(i) => find_from(s@, from as int, c) == Some(i as int) && from <= i < slen,
            None => find_from(s@, from as int, c) is None,
        },
{
    let mut i: usize = from;
    while i < slen
        invariant
            slen as nat == s@.len(),
            from <= i,
            find_from(s@, from as int, c) == find_from(s@, i as int, c),
        decreases slen - i,
    {
        let ch = s.get_char(i);
        if ch == c {
            return Some(i);
        }
        proof {
            assert(find_from(s@, i as int, c) == find_from(s@, i + 1, c));
        }
        i += 1;
    }
    None
}

fn find_sep_char_from(s: &str, slen: usize, from: usize) -> (r: Option<usize>)
    requires
        slen as nat == s@.len(),
    ensures
        match r {
            Some(i) => find_sep_from(s@, from as int) == Some(i as int) && from <= i < slen,
            None => find_sep_from(s@, from as int) is None,
        },
{
    let mut i: usize = from;
    while i < slen
        invariant
            slen as nat == s@.len(),
            from <= i,
            find_sep_from(s@, from as int) == find_sep_from(s@, i as int),
        decreases slen - i,
    {
        let ch = s.get_char(i);
        if ch == '/' || ch == '@' {
            return Some(i);
        }
        proof {
            assert(find_sep_from(s@, i as int) == find_sep_from(s@, i + 1));
        }
        i += 1;
    }
    None
}

fn rfind_char(s: &str, slen: usize, c: char) -> (r: Option<usize>)
    requires
        slen as nat == s@.len(),
    ensures
        match r {
            Some(i) => rfind(s@, c) == Some(i as int) && i < slen,
            None => rfind(s@, c) is None,
        },
{
    let mut i: usize = slen;
    proof {
        assert(s@.take(slen as int) =~= s@);
    }
    while i > 0
        invariant
            slen as nat == s@.len(),
            i <= slen,
            rfind(s@, c) == rfind(s@.take(i as int), c),
        decreases i,
    {
        i -= 1;
        let ch = s.get_char(i);
        proof {
            assert(s@.take(i + 1).len() == i + 1);
            assert(s@.take(i + 1)[i as int] == s@[i as int]);
            assert(s@.take(i + 1).drop_last() =~= s@.take(i as int));
        }
        if ch == c {
            proof {
                assert(rfind(s@.take(i + 1), c) == Some(i as int));
            }
            return Some(i);
        }
        proof {
            assert(rfind(s@.take(i + 1), c) == rfind(s@.take(i as int), c));
        }
    }
    proof {
        assert(s@.take(0).len() == 0);
    }
    None
}

fn find_marker_from(s: &str, slen: usize, from: usize) -> (r: Option<usize>)
    requires
        slen as nat == s@.len(),
    ensures
        match r {
            Some(i) => find_sub_from(s@, patch_marker(), from as int) == Some(i as int) && from
                <= i && i + patch_marker().len() <= slen,
            None => find_sub_from(s@, patch_marker(), from as int) is None,
        },
{
    let pat = "(patch_hash=";
    proof {
        reveal_strlit("(patch_hash=");
        assert(pat@ =~= patch_marker());
    }
    let mut i: usize = from;
    while i < slen && slen - i >= 12
        invariant
            slen as nat == s@.len(),
            pat@ == patch_marker(),
            patch_marker().len() == 12,
            from <= i,
            find_sub_from(s@, patch_marker(), from as int) == find_sub_from(
                s@,
                patch_marker(),
                i as int,
            ),
        decreases slen - i,
    {
        let mut k: usize = 0;
        let mut matched = true;
        while k < 12
            invariant
                slen as nat == s@.len(),
                pat@ == patch_marker(),
                patch_marker().len() == 12,
                i + 12 <= slen,
                k <= 12,
                matched == (forall|m: int| 0 <= m < k ==> s@[i + m] == patch_marker()[m]),
            decreases 12 - k,
        {
            let ch = s.get_char(i + k);
            let pc = pat.get_char(k);
            if ch != pc {
                matched = false;
                proof {
                    assert(s@[i + k as int] != patch_marker()[k as int]);
                }
                k = 12;
            } else {
                proof {
                    assert(s@[i + k as int] == patch_marker()[k as int]);
                }
                k += 1;
            }
        }
        if matched {
            proof {
                assert(s@.subrange(i as int, i + 12) =~= patch_marker());
                assert(occurs_at(s@, patch_marker(), i as int));
            }
            return Some(i);
        }
        proof {
            let m = choose|m: int| 0 <= m < 12 && s@[i + m] != patch_marker()[m];
            assert(s@.subrange(i as int, i + 12)[m] == s@[i + m]);
            assert(!occurs_at(s@, patch_marker(), i as int));
            assert(find_sub_from(s@, patch_marker(), i as int) == find_sub_from(
                s@,
                patch_marker(),
                i + 1,
            ));
        }
        i += 1;
    }
    None
}

/// Decomposes `key` according to the key grammar; `None` on a key that
/// fits neither encoding.
pub fn parse_dep_path<'a>(key: &'a str) -> (r: Option<DepPath<'a>>)
    ensures
        match r {
            Some(dp) => parse_key(key@) == Some(dp@),
            None => parse_key(key@) is None,
        },
{
    let klen = key.unicode_len();
    if klen == 0 {
        return None;
    }
    if key.get_char(0) != '/' {
        return None;
    }
    let rest = key.substring_char(1, klen);
    let rlen = klen - 1;
    proof {
        assert(rest@ =~= key@.drop_first());
    }
    let name_end: usize = if rlen > 0 && rest.get_char(0) == '@' {
        match find_char_from(rest, rlen, 1, '/') {
            None => {
                return None;
            },
            Some(slash) => match find_sep_char_from(rest, rlen, slash + 1) {
                None => {
                    return None;
                },
                Some(j) => j,
            },
        }
    } else {
        match find_sep_char_from(rest, rlen, 0) {
            None => {
                return None;
            },
            Some(j) => j,
        }
    };
    if name_end == 0 {
        return None;
    }
    let name = rest.substring_char(0, name_end);
    let modern = rest.get_char(name_end) == '@';
    let vpart = rest.substring_char(name_end + 1, rlen);
    let vlen = rlen - (name_end + 1);
    proof {
        assert(name@ =~= rest@.take(name_end as int));
        assert(vpart@ =~= rest@.skip(name_end + 1));
    }
    if vlen == 0 {
        return None;
    }
    if modern {
        match find_char_from(vpart, vlen, 0, '(') {
            None => Some(DepPath { name, version: vpart, peer_suffix: None, patch_hash: None }),
            Some(p) => {
                if p == 0 {
                    return None;
                }
                let version = vpart.substring_char(0, p);
                let sfx = vpart.substring_char(p, vlen);
                let sfxlen = vlen - p;
                proof {
                    assert(version@ =~= vpart@.take(p as int));
                    assert(sfx@ =~= vpart@.skip(p as int));
                }
                let ph = match find_marker_from(sfx, sfxlen, 0) {
                    None => None,
                    Some(q) => match find_char_from(sfx, sfxlen, q + 12, ')') {
                        None => None,
                        Some(close) => {
                            let h = sfx.substring_char(q + 12, close);
                            proof {
                                assert(h@ =~= sfx@.subrange(q + 12, close as int));
                            }
                            Some(h)
                        },
                    },
                };
                Some(DepPath { name, version, peer_suffix: Some(sfx), patch_hash: ph })
            },
        }
    } else {
        match find_char_from(vpart, vlen, 0, '_') {
            None => Some(DepPath { name, version: vpart, peer_suffix: None, patch_hash: None }),
            Some(u) => {
                if u == 0 {
                    return None;
                }
                let version = vpart.substring_char(0, u);
                let sfx = vpart.substring_char(u + 1, vlen);
                let sfxlen = vlen - (u + 1);
                proof {
                    assert(version@ =~= vpart@.take(u as int));
                    assert(sfx@ =~= vpart@.skip(u + 1));
                }
                if sfxlen == 0 {
                    return None;
                }
                let ph = match rfind_char(sfx, sfxlen, '_') {
                    None => sfx,
                    Some(l) => {
                        let h = sfx.substring_char(l + 1, sfxlen);
                        proof {
                            assert(h@ =~= sfx@.skip(l + 1));
                        }
                        h
                    },
                };
                Some(DepPath { name, version, peer_suffix: Some(sfx), patch_hash: Some(ph) })
            },
        }
    }
}

} // verus!
