//! Relative path handling: separators are normalized to forward slashes so
//! index keys and glob matching behave the same on every host OS.

use vstd::prelude::*;

verus! {

use crate::text::{push_char, str_eq};

/// What a relative path looks like once separators are normalized:
/// every backslash replaced by a forward slash.
pub open spec fn normalized(s: Seq<char>) -> Seq<char> {
    s.map_values(|c: char| if c == '\\' { '/' } else { c })
}

/// A path string that contains no backslash separator.
pub open spec fn is_normalized(s: Seq<char>) -> bool {
    forall|i: int| 0 <= i < s.len() ==> s[i] != '\\'
}

/// Normalize a relative path string to use forward slashes.
pub fn normalize_rel_path(s: &str) -> (r: String)
    ensures
        r@ == normalized(s@),
        is_normalized(r@),
{
    let n: usize = s.unicode_len();
    let mut r = String::new();
    let mut i: usize = 0;
    while i < n
        invariant
            n == s@.len(),
            i <= n,
            r@ == normalized(s@.take(i as int)),
        decreases n - i,
    {
        let c = s.get_char(i);
        if c == '\\' {
            push_char(&mut r, '/');
        } else {
            push_char(&mut r, c);
        }
        i = i + 1;
        proof {
            assert(r@ =~= normalized(s@.take(i as int)));
        }
    }
    proof {
        assert(s@.take(n as int) =~= s@);
    }
    r
}

/// A path with no backslash is already in normalized form.
pub proof fn lemma_normalized_id(s: Seq<char>)
    requires
        is_normalized(s),
    ensures
        normalized(s) == s,
{
    assert(normalized(s) =~= s);
}

/// `f` lies at or below prefix `p`: it is `p` itself, or `p` followed by a
/// slash and more.
pub open spec fn under_prefix(f: Seq<char>, p: Seq<char>) -> bool {
    ||| f == p
    ||| (f.len() > p.len() && f.take(p.len() as int) == p && f[p.len() as int] == '/')
}

/// Whether path `f` equals `p` or lies below it.
pub fn path_under_prefix(f: &str, p: &str) -> (r: bool)
    ensures
        r == under_prefix(f@, p@),
{
    if str_eq(f, p) {
        return true;
    }
    let mut q: String = p.to_owned();
    push_char(&mut q, '/');
    let sw = crate::text::str_starts_with(f, q.as_str());
    proof {
        if sw {
            assert(f@.take(p@.len() as int) =~= q@.take(p@.len() as int));
            assert(q@.take(p@.len() as int) =~= p@);
            assert(f@[p@.len() as int] == f@.take(q@.len() as int)[p@.len() as int]);
        } else {
            if f@.len() > p@.len() && f@.take(p@.len() as int) == p@ && f@[p@.len() as int]
                == '/' {
                assert(f@.take(q@.len() as int) =~= q@);
                assert(false);
            }
        }
    }
    sw
}

/// The prefix with every trailing slash removed.
pub open spec fn trimmed_slashes(s: Seq<char>) -> Seq<char>
    decreases s.len(),
{
    if s.len() > 0 && s.last() == '/' {
        trimmed_slashes(s.drop_last())
    } else {
        s
    }
}

/// Removes every trailing slash of `s`.
pub fn trim_trailing_slashes(s: &str) -> (r: String)
    ensures
        r@ == trimmed_slashes(s@),
{
    let n = s.unicode_len();
    let mut k = n;
    proof {
        assert(s@.take(n as int) =~= s@);
    }
    while k > 0 && s.get_char(k - 1) == '/'
        invariant
            n == s@.len(),
            k <= n,
            trimmed_slashes(s@) == trimmed_slashes(s@.take(k as int)),
        decreases k,
    {
        proof {
            assert(s@.take(k as int).drop_last() =~= s@.take(k - 1));
            assert(s@.take(k as int).last() == s@[k - 1]);
        }
        k = k - 1;
    }
    proof {
        assert(s@.take(n as int) =~= s@);
        if k > 0 {
            assert(s@.take(k as int).last() == s@[k - 1]);
        }
        assert(trimmed_slashes(s@.take(k as int)) == s@.take(k as int));
    }
    let r = s.substring_char(0, k);
    proof {
        assert(r@ =~= s@.take(k as int));
    }
    r.to_owned()
}

/// A ".." path segment standing at position `i`: two dots bounded by
/// separators or the ends of the path.
pub open spec fn dotdot_at(s: Seq<char>, i: int) -> bool {
    &&& 0 <= i
    &&& i + 2 <= s.len()
    &&& s[i] == '.'
    &&& s[i + 1] == '.'
    &&& (i == 0 || s[i - 1] == '/')
    &&& (i + 2 == s.len() || s[i + 2] == '/')
}

/// Whether the path steps upward anywhere through a ".." segment.
pub open spec fn has_dotdot_segment(s: Seq<char>) -> bool {
    exists|i: int| dotdot_at(s, i)
}

/// A well-formed index key: nonempty, forward slashes only, not
/// absolute, and never stepping upward through a ".." segment.
pub open spec fn valid_rel_key(s: Seq<char>) -> bool {
    s.len() > 0 && s[0] != '/' && !has_dotdot_segment(s) && is_normalized(s)
}

/// Whether `path`, once its separators are normalized, makes a
/// well-formed index key.
#[verifier::loop_isolation(false)]
pub fn is_valid_rel_key(path: &str) -> (r: bool)
    ensures
        r == valid_rel_key(normalized(path@)),
{
    let norm = normalize_rel_path(path);
    let n = norm.as_str().unicode_len();
    if n == 0 {
        return false;
    }
    if norm.as_str().get_char(0) == '/' {
        return false;
    }
    let mut i: usize = 0;
    while n >= 2 && i <= n - 2
        invariant
            n == norm@.len(),
            i <= n,
            forall|k: int| 0 <= k < i ==> !dotdot_at(norm@, k),
        decreases n - i,
    {
        if norm.as_str().get_char(i) == '.' && norm.as_str().get_char(i + 1) == '.' {
            let left_ok = i == 0 || norm.as_str().get_char(i - 1) == '/';
            let right_ok = i + 2 == n || norm.as_str().get_char(i + 2) == '/';
            if left_ok && right_ok {
                proof {
                    assert(dotdot_at(norm@, i as int));
                }
                return false;
            }
        }
        i = i + 1;
    }
    proof {
        if has_dotdot_segment(norm@) {
            let k = choose|k: int| dotdot_at(norm@, k);
            assert(!dotdot_at(norm@, k));
        }
    }
    true
}

/// Index of the last occurrence of `c` in `s`, or -1.
pub open spec fn last_pos_of(s: Seq<char>, c: char) -> int
    decreases s.len(),
{
    if s.len() == 0 {
        -1
    } else if s.last() == c {
        s.len() - 1
    } else {
        last_pos_of(s.drop_last(), c)
    }
}

/// The last occurrence, if any, is one, and none follows it.
pub proof fn lemma_last_pos_of(s: Seq<char>, c: char)
    ensures
        last_pos_of(s, c) == -1 || 0 <= last_pos_of(s, c) < s.len(),
        last_pos_of(s, c) >= 0 ==> s[last_pos_of(s, c)] == c,
        forall|k: int| last_pos_of(s, c) < k < s.len() ==> s[k] != c,
    decreases s.len(),
{
    if s.len() > 0 && s.last() != c {
        lemma_last_pos_of(s.drop_last(), c);
        assert(forall|k: int| 0 <= k < s.len() - 1 ==> s[k] == s.drop_last()[k]);
    }
}

/// The final path segment: what follows the last slash.
pub open spec fn file_name_of(s: Seq<char>) -> Seq<char> {
    s.skip(last_pos_of(s, '/') + 1)
}

/// The extension, as std's `Path::extension` sees it: the part of the
/// file name after its last dot; none when the name's only dot leads it.
pub open spec fn extension_of(s: Seq<char>) -> Option<Seq<char>> {
    let name = file_name_of(s);
    let d = last_pos_of(name, '.');
    if d <= 0 {
        None
    } else {
        Some(name.skip(d + 1))
    }
}

/// Index of the last occurrence of `c`, if there is one.
#[verifier::loop_isolation(false)]
pub fn find_last_char(s: &str, c: char) -> (r: Option<usize>)
    ensures
        match r {
            Some(i) => i == last_pos_of(s@, c) && i < s@.len(),
            None => last_pos_of(s@, c) == -1,
        },
{
    proof {
        lemma_last_pos_of(s@, c);
    }
    let n = s.unicode_len();
    let mut i = n;
    while i > 0
        invariant
            i <= n,
            forall|k: int| i <= k < n ==> s@[k] != c,
        decreases i,
    {
        i = i - 1;
        if s.get_char(i) == c {
            proof {
                let lp = last_pos_of(s@, c);
                if lp < i as int {
                    assert(s@[i as int] != c);
                }
                if lp > i as int {
                    assert(s@[lp] != c);
                }
            }
            return Some(i);
        }
    }
    proof {
        let lp = last_pos_of(s@, c);
        if lp >= 0 {
            assert(s@[lp] != c);
        }
    }
    None
}

/// The extension of a path, as std's `Path::extension` sees it.
pub fn file_extension(s: &str) -> (r: Option<String>)
    ensures
        match r {
            Some(e) => extension_of(s@) matches Some(x) && x == e@,
            None => extension_of(s@) is None,
        },
{
    let n = s.unicode_len();
    let name_start: usize = match find_last_char(s, '/') {
        Some(p) => p + 1,
        None => 0,
    };
    let name = s.substring_char(name_start, n);
    proof {
        assert(name@ =~= file_name_of(s@));
    }
    match find_last_char(name, '.') {
        None => None,
        Some(d) => {
            if d == 0 {
                None
            } else {
                let m = name.unicode_len();
                let e = name.substring_char(d + 1, m);
                proof {
                    assert(e@ =~= file_name_of(s@).skip(last_pos_of(file_name_of(s@), '.') + 1));
                }
                Some(e.to_owned())
            }
        },
    }
}

} // verus!
