//! Validation of client paths before they are resolved against the root
//! directory of the file browser, and their normal form.
//!
//! Paths are read by the rules of the host platform. On Unix a path splits
//! into components at `/`; on Windows at `/` and at `\`, and it may also
//! start with a drive prefix such as `C:`. A path is safe only when every
//! component is an ordinary name or the current-directory marker `.`: a
//! leading separator (a root, or on Windows a UNC share), a drive prefix and
//! any `..` component make it unsafe.
use vstd::prelude::*;

verus! {

/// `c` separates path components on the host (`windows` tells which).
pub open spec fn is_sep(c: char, windows: bool) -> bool {
    c == '/' || (windows && c == '\\')
}

pub open spec fn is_ascii_letter(c: char) -> bool {
    ('a' <= c && c <= 'z') || ('A' <= c && c <= 'Z')
}

/// The path starts at a root or at a share (`/x`; on Windows also `\x`, `\\server\share`).
pub open spec fn has_root(s: Seq<char>, windows: bool) -> bool {
    s.len() > 0 && is_sep(s[0], windows)
}

/// The path starts with a drive prefix (`C:`), which only Windows has.
pub open spec fn has_drive_prefix(s: Seq<char>, windows: bool) -> bool {
    windows && s.len() >= 2 && is_ascii_letter(s[0]) && s[1] == ':'
}

/// A `..` component starts at position `i`.
pub open spec fn parent_at(s: Seq<char>, windows: bool, i: int) -> bool {
    0 <= i && i + 2 <= s.len() && s[i] == '.' && s[i + 1] == '.' && (i == 0 || is_sep(
        s[i - 1],
        windows,
    )) && (i + 2 == s.len() || is_sep(s[i + 2], windows))
}

pub open spec fn has_parent(s: Seq<char>, windows: bool) -> bool {
    exists|i: int| #[trigger] parent_at(s, windows, i)
}

/// The path is made of ordinary names and `.` markers only.
pub open spec fn is_safe_path(s: Seq<char>, windows: bool) -> bool {
    !has_root(s, windows) && !has_drive_prefix(s, windows) && !has_parent(s, windows)
}

/// The components of `s`, split at every separator (empty ones included).
pub open spec fn split_components(s: Seq<char>, windows: bool) -> Seq<Seq<char>>
    decreases s.len(),
{
    if s.len() == 0 {
        seq![Seq::empty()]
    } else {
        let prev = split_components(s.drop_last(), windows);
        if is_sep(s.last(), windows) {
            prev.push(Seq::empty())
        } else {
            prev.update(prev.len() - 1, prev.last().push(s.last()))
        }
    }
}

/// A component that names something: neither empty nor `.`.
pub open spec fn is_name(c: Seq<char>) -> bool {
    c.len() > 0 && c != seq!['.']
}

/// The naming components of `cs`, in order, joined by `/`.
pub open spec fn join_names(cs: Seq<Seq<char>>) -> Seq<char>
    decreases cs.len(),
{
    if cs.len() == 0 {
        Seq::empty()
    } else {
        let prev = join_names(cs.drop_last());
        if !is_name(cs.last()) {
            prev
        } else if prev.len() == 0 {
            cs.last()
        } else {
            prev + seq!['/'] + cs.last()
        }
    }
}

/// The normal form of a relative path: its naming components joined by `/`.
/// `""`, `"."` and `"./"` are all `""`; `"./src"` and `"src/."` are `"src"`.
pub open spec fn normalize(s: Seq<char>, windows: bool) -> Seq<char> {
    join_names(split_components(s, windows))
}

fn is_sep_char(c: char, windows: bool) -> (r: bool)
    ensures
        r == is_sep(c, windows),
{
    c == '/' || (windows && c == '\\')
}

/// Decides whether `raw` may be resolved against the sandbox root, reading
/// it by the rules of Windows when `windows` holds and of Unix otherwise.
pub fn validate_path(raw: &str, windows: bool) -> (r: bool)
    ensures
        r == is_safe_path(raw@, windows),
{
    let n = raw.unicode_len();
    if n > 0 && is_sep_char(raw.get_char(0), windows) {
        return false;
    }
    if windows && n >= 2 {
        let c0 = raw.get_char(0);
        if (('a' <= c0 && c0 <= 'z') || ('A' <= c0 && c0 <= 'Z')) && raw.get_char(1) == ':' {
            return false;
        }
    }
    let mut i: usize = 0;
    while i < n && n - i >= 2
        invariant
            n == raw@.len(),
            i <= n,
            forall|j: int| 0 <= j < i ==> !parent_at(raw@, windows, j),
        decreases n - i,
    {
        if raw.get_char(i) == '.' && raw.get_char(i + 1) == '.' && (i == 0 || is_sep_char(
            raw.get_char(i - 1),
            windows,
        )) && (i + 2 == n || is_sep_char(raw.get_char(i + 2), windows)) {
            assert(parent_at(raw@, windows, i as int));
            return false;
        }
        i = i + 1;
    }
    assert forall|j: int| !parent_at(raw@, windows, j) by {
        if 0 <= j < i {
        }
    }
    true
}

proof fn lemma_join_names_empty(cs: Seq<Seq<char>>)
    ensures
        join_names(cs).len() == 0 <==> forall|k: int| 0 <= k < cs.len() ==> !is_name(#[trigger] cs[k]),
    decreases cs.len(),
{
    if cs.len() > 0 {
        lemma_join_names_empty(cs.drop_last());
        let p = cs.drop_last();
        if join_names(p).len() == 0 {
            assert forall|k: int| 0 <= k < p.len() implies !is_name(#[trigger] cs[k]) by {
                assert(p[k] == cs[k]);
            }
        } else {
            let k = choose|k: int| 0 <= k < p.len() && is_name(#[trigger] p[k]);
            assert(cs[k] == p[k]);
        }
    }
}

/// Puts `raw` in normal form, read by the host's rules as `validate_path`.
pub fn normalize_path(raw: &str, windows: bool) -> (r: String)
    ensures
        r@ == normalize(raw@, windows),
{
    let n = raw.unicode_len();
    let mut out = String::new();
    let mut start: usize = 0;
    let mut i: usize = 0;
    proof {
        assert(raw@.take(0) =~= Seq::<char>::empty());
        assert(split_components(Seq::<char>::empty(), windows).drop_last() =~= Seq::<Seq<char>>::empty());
    }
    while i < n
        invariant
            n == raw@.len(),
            start <= i <= n,
            out@ == join_names(split_components(raw@.take(i as int), windows).drop_last()),
            split_components(raw@.take(i as int), windows).last() == raw@.subrange(start as int, i as int),
            split_components(raw@.take(i as int), windows).len() > 0,
        decreases n - i,
    {
        let ghost t = raw@.take(i as int);
        let ghost t1 = raw@.take(i + 1);
        proof {
            assert(t1.drop_last() =~= t);
            assert(t1.last() == raw@[i as int]);
        }
        let c = raw.get_char(i);
        if is_sep_char(c, windows) {
            let part = raw.substring_char(start, i);
            let ghost prev = split_components(t, windows);
            proof {
                assert(split_components(t1, windows) == prev.push(Seq::empty()));
                assert(split_components(t1, windows).drop_last() =~= prev);
                assert(prev =~= prev.drop_last().push(prev.last()));
                lemma_join_names_empty(prev.drop_last());
            }
            let plen = part.unicode_len();
            let is_nm = plen > 0 && !(plen == 1 && part.get_char(0) == '.');
            proof {
                assert(is_nm == is_name(part@)) by {
                    if plen == 1 && part@[0] == '.' {
                        assert(part@ =~= seq!['.']);
                    }
                    if part@ == seq!['.'] {
                        assert(part@[0] == '.');
                    }
                }
            }
            if is_nm {
                if out.unicode_len() > 0 {
                    proof { reveal_strlit("/"); }
                    out.append("/");
                }
                out.append(part);
            }
            start = i + 1;
            proof {
                assert(raw@.subrange(start as int, i + 1) =~= Seq::<char>::empty());
            }
        } else {
            proof {
                let prev = split_components(t, windows);
                assert(split_components(t1, windows) == prev.update(prev.len() - 1, prev.last().push(c)));
                assert(split_components(t1, windows).drop_last() =~= prev.drop_last());
                assert(raw@.subrange(start as int, i + 1) =~= raw@.subrange(start as int, i as int).push(c));
            }
        }
        i = i + 1;
    }
    let part = raw.substring_char(start, n);
    let ghost all = split_components(raw@, windows);
    proof {
        assert(raw@.take(n as int) =~= raw@);
        assert(all =~= all.drop_last().push(all.last()));
        lemma_join_names_empty(all.drop_last());
    }
    let plen = part.unicode_len();
    let is_nm = plen > 0 && !(plen == 1 && part.get_char(0) == '.');
    proof {
        assert(is_nm == is_name(part@)) by {
            if plen == 1 && part@[0] == '.' {
                assert(part@ =~= seq!['.']);
            }
            if part@ == seq!['.'] {
                assert(part@[0] == '.');
            }
        }
    }
    if is_nm {
        if out.unicode_len() > 0 {
            proof { reveal_strlit("/"); }
            out.append("/");
        }
        out.append(part);
    }
    out
}

} // verus!
