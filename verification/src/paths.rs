//! Path strings: joining a component onto a directory path, the
//! default root storage folder, and the file name of a path.

use vstd::prelude::*;
use vstd::string::StrSliceExecFns;
use vstd::string::StringExecFns;

verus! {

/// The characters of `dir` joined with `name` by a single separator:
/// no separator is added when `dir` already ends with one, and an
/// empty `dir` yields `name` alone.
pub open spec fn join_spec(dir: Seq<char>, name: Seq<char>) -> Seq<char> {
    if dir.len() == 0 {
        name
    } else if dir.last() == '/' {
        dir + name
    } else {
        dir + seq!['/'] + name
    }
}

/// Joins one path component onto a directory path.
pub fn join_path(dir: &str, name: &str) -> (r: String)
    ensures
        r@ == join_spec(dir@, name@),
{
    let n = dir.unicode_len();
    if n == 0 {
        name.to_owned()
    } else if dir.get_char(n - 1) == '/' {
        dir.to_owned().concat(name)
    } else {
        let r = dir.to_owned().concat("/").concat(name);
        proof {
            reveal_strlit("/");
            assert(("/")@ =~= seq!['/']);
            assert(dir@ + ("/")@ + name@ =~= dir@ + seq!['/'] + name@);
        }
        r
    }
}

/// The directory where the application keeps its files: a fixed
/// folder inside the home directory, or under the filesystem root
/// when no home directory is known.
pub fn root_folder_path(home: Option<&str>) -> (r: String)
    ensures
        home matches Some(h) ==> r@ == join_spec(h@, "nodian"@),
        home is None ==> r@ == join_spec("/"@, "nodian"@),
{
    match home {
        Some(h) => join_path(h, "nodian"),
        None => join_path("/", "nodian"),
    }
}

/// The characters after the last separator of `p`: the whole of `p`
/// when it holds no separator, and empty when `p` ends with one.
pub open spec fn base_name_spec(p: Seq<char>) -> Seq<char>
    decreases p.len(),
{
    if p.len() == 0 {
        p
    } else if p.last() == '/' {
        Seq::empty()
    } else {
        base_name_spec(p.drop_last()).push(p.last())
    }
}

proof fn lemma_base_name_suffix(p: Seq<char>, start: int)
    requires
        0 <= start <= p.len(),
        start > 0 ==> p[start - 1] == '/',
        forall|j: int| start <= j < p.len() ==> p[j] != '/',
    ensures
        base_name_spec(p) == p.skip(start),
    decreases p.len(),
{
    if start == p.len() {
        if start == 0 {
            assert(base_name_spec(p) =~= p.skip(start));
        } else {
            assert(p.last() == p[start - 1]);
            assert(base_name_spec(p) =~= p.skip(start));
        }
    } else {
        assert(p.last() == p[p.len() - 1]);
        assert(p.last() != '/');
        lemma_base_name_suffix(p.drop_last(), start);
        assert(base_name_spec(p) == p.drop_last().skip(start).push(p.last()));
        assert(p.drop_last().skip(start).push(p.last()) =~= p.skip(start));
    }
}

/// The last component of `p` is a lone `.`.
pub open spec fn ends_with_cur_component(p: Seq<char>) -> bool {
    p.len() >= 1 && p.last() == '.' && (p.len() == 1 || p[p.len() - 2] == '/')
}

/// The last component of `p` is `..`.
pub open spec fn ends_with_parent_component(p: Seq<char>) -> bool {
    p.len() >= 2 && p[p.len() - 1] == '.' && p[p.len() - 2] == '.' && (p.len() == 2 || p[p.len()
        - 3] == '/')
}

/// The file name of a path: its last real component. Trailing
/// separators and trailing `.` components are ignored; a path whose
/// last component is `..`, or that has no component at all, has an
/// empty file name.
pub open spec fn file_name_spec(p: Seq<char>) -> Seq<char>
    decreases p.len(),
{
    if p.len() == 0 {
        p
    } else if p.last() == '/' || ends_with_cur_component(p) {
        file_name_spec(p.drop_last())
    } else if ends_with_parent_component(p) {
        Seq::empty()
    } else {
        base_name_spec(p)
    }
}

/// The file name of a path, as `file_name_spec` defines it.
pub fn file_name(path: &str) -> (r: String)
    ensures
        r@ == file_name_spec(path@),
{
    let n = path.unicode_len();
    let mut end: usize = n;
    let mut stop = false;
    proof {
        assert(path@.take(n as int) =~= path@);
    }
    while !stop && end > 0
        invariant
            n == path@.len(),
            end <= n,
            file_name_spec(path@) == file_name_spec(path@.take(end as int)),
            stop ==> end > 0 && path@[end - 1] != '/' && !ends_with_cur_component(
                path@.take(end as int),
            ),
        decreases 2 * end + (if stop {
            0int
        } else {
            1int
        }),
    {
        let c = path.get_char(end - 1);
        proof {
            assert(path@.take(end as int).last() == path@[end - 1]);
            assert(path@.take(end as int).drop_last() =~= path@.take(end - 1));
        }
        if c == '/' {
            end -= 1;
        } else if c == '.' && (end == 1 || path.get_char(end - 2) == '/') {
            proof {
                assert(ends_with_cur_component(path@.take(end as int)));
            }
            end -= 1;
        } else {
            proof {
                assert(!ends_with_cur_component(path@.take(end as int)));
            }
            stop = true;
        }
    }
    if end == 0 {
        proof {
            assert(path@.take(0) =~= Seq::<char>::empty());
        }
        return String::new();
    }
    let ghost t = path@.take(end as int);
    if end >= 2 && path.get_char(end - 1) == '.' && path.get_char(end - 2) == '.' && (end == 2
        || path.get_char(end - 3) == '/') {
        proof {
            assert(ends_with_parent_component(t));
        }
        return String::new();
    }
    proof {
        assert(!ends_with_parent_component(t));
    }
    let mut start: usize = 0;
    let mut i: usize = 0;
    while i < end
        invariant
            n == path@.len(),
            end <= n,
            i <= end,
            start <= i,
            start > 0 ==> path@[start - 1] == '/',
            forall|j: int| start <= j < i ==> path@[j] != '/',
        decreases end - i,
    {
        if path.get_char(i) == '/' {
            start = i + 1;
        }
        i += 1;
    }
    proof {
        assert(t.len() == end);
        assert(forall|j: int| 0 <= j < end ==> t[j] == path@[j]);
        lemma_base_name_suffix(t, start as int);
    }
    let tail = path.substring_char(start, end);
    proof {
        assert(tail@ =~= t.skip(start as int));
    }
    tail.to_owned()
}

} // verus!
