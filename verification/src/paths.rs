use vstd::prelude::*;

verus! {

/// `path` stripped of trailing separators and trailing `.` components, as
/// path normalization drops them before the file name is taken.
pub open spec fn trim_tail(path: Seq<char>) -> Seq<char>
    decreases path.len(),
{
    if path.len() == 0 {
        path
    } else if path.last() == '/' {
        trim_tail(path.drop_last())
    } else if path.last() == '.' && (path.len() == 1 || path[path.len() - 2] == '/') {
        trim_tail(path.drop_last())
    } else {
        path
    }
}

/// A trimmed path never ends in a separator.
proof fn lemma_trim_tail_no_trailing_separator(path: Seq<char>)
    ensures
        trim_tail(path).len() > 0 ==> trim_tail(path).last() != '/',
    decreases path.len(),
{
    if path.len() > 0 && (path.last() == '/' || (path.last() == '.' && (path.len() == 1 || path[
        path.len() - 2] == '/'))) {
        lemma_trim_tail_no_trailing_separator(path.drop_last());
    }
}

/// The file-name part of `path`: its last component once trailing separators
/// and `.` components are dropped. There is none when nothing remains, or
/// when the last component is the parent component `..`.
pub open spec fn file_name_of(path: Seq<char>) -> Option<Seq<char>> {
    let t = trim_tail(path);
    if t.len() == 0 {
        None
    } else {
        let lo = match t.index_of_last('/') {
            Some(i) => i + 1,
            None => 0,
        };
        let f = t.subrange(lo, t.len() as int);
        if f.len() == 2 && f[0] == '.' && f[1] == '.' {
            None
        } else {
            Some(f)
        }
    }
}

/// The extension of `path`: what follows the last `.` of its file-name part,
/// a `.` leading that part not counting (a file named `.c` is a hidden file
/// without an extension).
pub open spec fn extension_of(path: Seq<char>) -> Option<Seq<char>> {
    match file_name_of(path) {
        Some(f) => match f.index_of_last('.') {
            Some(i) => if i >= 1 {
                Some(f.subrange(i + 1, f.len() as int))
            } else {
                None
            },
            None => None,
        },
        None => None,
    }
}

/// Does `path` name a C source or header file? True exactly when its
/// extension is `c` or `h`.
pub fn is_source_or_header_file(path: &str) -> (r: bool)
    ensures
        r == (extension_of(path@) == Some("c"@) || extension_of(path@) == Some("h"@)),
{
    let len: usize = path.unicode_len();
    let mut hi: usize = len;
    proof {
        assert(path@.subrange(0, len as int) =~= path@);
    }
    loop
        invariant
            hi <= len,
            len == path@.len(),
            trim_tail(path@) == trim_tail(path@.subrange(0, hi as int)),
        ensures
            hi <= len,
            trim_tail(path@) == path@.subrange(0, hi as int),
        decreases hi,
    {
        let ghost t = path@.subrange(0, hi as int);
        proof {
            if hi > 0 {
                assert(t.last() == path@[hi - 1]);
                assert(t.drop_last() =~= path@.subrange(0, hi - 1));
                if hi > 1 {
                    assert(t[t.len() - 2] == path@[hi - 2]);
                }
            }
        }
        if hi > 0 && path.get_char(hi - 1) == '/' {
            hi = hi - 1;
        } else if hi > 1 && path.get_char(hi - 1) == '.' && path.get_char(hi - 2) == '/' {
            hi = hi - 1;
        } else if hi == 1 && path.get_char(0) == '.' {
            hi = 0;
        } else {
            proof {
                assert(trim_tail(t) == t);
            }
            break;
        }
    }
    let ghost t = path@.subrange(0, hi as int);
    proof {
        assert(trim_tail(path@) == t);
        assert(t.len() == hi);
        assert(forall|k: int| 0 <= k < hi ==> t[k] == path@[k]);
    }
    if hi == 0 {
        proof {
            assert(extension_of(path@) is None);
        }
        return false;
    }
    let mut last_slash: Option<usize> = None;
    let mut last_dot: Option<usize> = None;
    let mut i: usize = 0;
    while i < hi
        invariant
            i <= hi,
            hi <= len,
            len == path@.len(),
            match last_slash {
                Some(s) => 0 <= s < i && path@[s as int] == '/' && (forall|j: int|
                    s < j < i ==> path@[j] != '/'),
                None => forall|j: int| 0 <= j < i ==> path@[j] != '/',
            },
            match last_dot {
                Some(d) => 0 <= d < i && path@[d as int] == '.' && (forall|j: int|
                    d < j < i ==> path@[j] != '.'),
                None => forall|j: int| 0 <= j < i ==> path@[j] != '.',
            },
        decreases hi - i,
    {
        let ch = path.get_char(i);
        if ch == '/' {
            last_slash = Some(i);
        }
        if ch == '.' {
            last_dot = Some(i);
        }
        i = i + 1;
    }
    proof {
        t.index_of_last_ensures('/');
        match last_slash {
            Some(s) => {
                assert(t[s as int] == '/');
                assert(t.contains('/'));
                assert(t.index_of_last('/') == Some(s as int));
            },
            None => {
                assert(!t.contains('/')) by {
                    if t.contains('/') {
                        let j = choose|j: int| 0 <= j < t.len() && t[j] == '/';
                        assert(path@[j] != '/');
                    }
                }
            },
        }
        lemma_trim_tail_no_trailing_separator(path@);
    }
    let lo: usize = match last_slash {
        Some(s) => s + 1,
        None => 0,
    };
    let ghost f = t.subrange(lo as int, t.len() as int);
    proof {
        assert(lo < hi);
        assert(f.len() == hi - lo);
        assert(forall|k: int| 0 <= k < f.len() ==> f[k] == path@[lo + k]);
    }
    if hi - lo == 2 && path.get_char(lo) == '.' && path.get_char(lo + 1) == '.' {
        proof {
            assert(f.len() == 2 && f[0] == '.' && f[1] == '.');
            assert(extension_of(path@) is None);
        }
        return false;
    }
    proof {
        assert(file_name_of(path@) == Some(f));
        f.index_of_last_ensures('.');
        reveal_strlit("c");
        reveal_strlit("h");
    }
    match last_dot {
        Some(d) => {
            if d > lo {
                proof {
                    assert(f[d - lo] == '.');
                    assert(f.contains('.'));
                    assert forall|k: int| d - lo < k < f.len() implies f[k] != '.' by {
                        assert(f[k] == path@[lo + k]);
                    }
                    assert(f.index_of_last('.') == Some((d - lo) as int));
                }
                let ext_len: usize = hi - (d + 1);
                if ext_len == 1 {
                    let ch = path.get_char(d + 1);
                    proof {
                        let ext = f.subrange(d - lo + 1, f.len() as int);
                        assert(extension_of(path@) == Some(ext));
                        assert(ext.len() == 1);
                        assert(ext[0] == f[d - lo + 1]);
                        assert(ext[0] == path@[d + 1]);
                        if ch == 'c' {
                            assert(ext =~= "c"@);
                            assert(extension_of(path@) == Some("c"@));
                        } else if ch == 'h' {
                            assert(ext =~= "h"@);
                            assert(extension_of(path@) == Some("h"@));
                        } else {
                            assert(ext != "c"@);
                            assert(ext != "h"@);
                        }
                    }
                    ch == 'c' || ch == 'h'
                } else {
                    proof {
                        let ext = f.subrange(d - lo + 1, f.len() as int);
                        assert(extension_of(path@) == Some(ext));
                        assert(ext.len() != 1);
                        assert(ext != "c"@ && ext != "h"@);
                    }
                    false
                }
            } else if d == lo {
                proof {
                    assert(f[0] == '.');
                    assert(f.contains('.'));
                    assert forall|k: int| 0 < k < f.len() implies f[k] != '.' by {
                        assert(f[k] == path@[lo + k]);
                    }
                    assert(f.index_of_last('.') == Some(0int));
                    assert(extension_of(path@) is None);
                }
                false
            } else {
                proof {
                    assert(!f.contains('.')) by {
                        if f.contains('.') {
                            let k = choose|k: int| 0 <= k < f.len() && f[k] == '.';
                            assert(f[k] == path@[lo + k]);
                            assert(path@[lo + k] != '.');
                        }
                    }
                    assert(extension_of(path@) is None);
                }
                false
            }
        },
        None => {
            proof {
                assert(!f.contains('.')) by {
                    if f.contains('.') {
                        let k = choose|k: int| 0 <= k < f.len() && f[k] == '.';
                        assert(f[k] == path@[lo + k]);
                        assert(path@[lo + k] != '.');
                    }
                }
                assert(extension_of(path@) is None);
            }
            false
        },
    }
}

} // verus!
