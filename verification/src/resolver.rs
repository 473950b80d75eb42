//! The filesystem resolver: walks the directory tree and collects the paths
//! that a compiled match expression accepts.

use vstd::prelude::*;

verus! {

/// The traversal prefix of a compiled expression: an expression starting
/// with a path separator is resolved absolutely (no prefix), any other one
/// under the working-directory prefix the caller passed in.
pub open spec fn spec_prefix(s: Seq<char>, cwd: Seq<char>) -> Seq<char> {
    if s.len() > 0 && s[0] == '/' {
        Seq::<char>::empty()
    } else {
        cwd
    }
}

/// The final match pattern of a compiled expression: the traversal prefix
/// followed by the expression itself.
pub open spec fn spec_full_pattern(s: Seq<char>, cwd: Seq<char>) -> Seq<char> {
    spec_prefix(s, cwd) + s
}

/// The root the walk for a compiled expression starts from: the filesystem
/// root for an expression starting with a path separator, the
/// working-directory prefix for any other.
pub open spec fn spec_walk_root(s: Seq<char>, cwd: Seq<char>) -> Seq<char> {
    if s.len() > 0 && s[0] == '/' {
        "/"@
    } else {
        cwd
    }
}

/// `regex::Regex`, carried opaquely through the resolver.
#[verifier::external_type_specification]
#[verifier::external_body]
pub struct ExRegex(regex::Regex);

/// `walkdir::IntoIter`, carried opaquely through the resolver.
#[verifier::external_type_specification]
#[verifier::external_body]
pub struct ExWalkIntoIter(walkdir::IntoIter);

/// `walkdir::DirEntry`, the item type of the walk iterator (needed to
/// declare the iterator, though no signature of the library carries it).
#[verifier::external_type_specification]
#[verifier::external_body]
pub struct ExWalkDirEntry(walkdir::DirEntry);

/// `walkdir::Error`, the error type of the walk iterator (needed to
/// declare the iterator, though no signature of the library carries it).
#[verifier::external_type_specification]
#[verifier::external_body]
pub struct ExWalkError(walkdir::Error);

/// The pattern a compiled regex value was built from.
pub uninterp spec fn regex_pattern(re: regex::Regex) -> Seq<char>;

/// Whether the regex crate's parser accepts a pattern.
pub uninterp spec fn regex_compiles(pattern: Seq<char>) -> bool;

/// Whether a pattern matches anywhere in a text.
pub uninterp spec fn regex_accepts(pattern: Seq<char>, text: Seq<char>) -> bool;

/// The display text of the error a pattern fails to compile with.
pub uninterp spec fn regex_error_text(pattern: Seq<char>) -> Seq<char>;

/// A measure of the entries a directory walk has left to yield.
pub uninterp spec fn walk_remaining(it: walkdir::IntoIter) -> nat;

/// The root path a directory walk was started from.
pub uninterp spec fn walk_root(it: walkdir::IntoIter) -> Seq<char>;

/// The depth bound a directory walk was built with.
pub uninterp spec fn walk_depth(it: walkdir::IntoIter) -> nat;

/// Relies on `regex::Regex::new`: under the default configuration both the
/// outcome and the error's display text are functions of the pattern
/// alone, compilation succeeds exactly on the patterns the crate's syntax
/// accepts, and the value returned matches per the given pattern.
#[verifier::external_body]
fn regex_new(pattern: &str) -> (r: Result<regex::Regex, String>)
    ensures
        r is Ok <==> regex_compiles(pattern@),
        r is Ok ==> regex_pattern(r->Ok_0) == pattern@,
        r is Err ==> r->Err_0@ == regex_error_text(pattern@),
{
    match regex::Regex::new(pattern) {
        Ok(re) => Ok(re),
        Err(e) => Err(e.to_string()),
    }
}

/// Relies on `regex::Regex::is_match`: whether a regex matches anywhere in
/// a text depends only on the pattern it was compiled from and the text.
#[verifier::external_body]
fn regex_is_match(re: &regex::Regex, text: &str) -> (r: bool)
    ensures
        r == regex_accepts(regex_pattern(*re), text@),
{
    re.is_match(text)
}

/// Relies on `walkdir::WalkDir::new`, `WalkDir::max_depth` and
/// `WalkDir::into_iter`: a depth-bounded iterator over the directory tree
/// under `root`.  Which entries it will yield depends on the filesystem;
/// only the root and the depth bound it was built with are recorded.
#[verifier::external_body]
fn walk_iter(root: &str, max_depth: usize) -> (it: walkdir::IntoIter)
    ensures
        walk_root(it) == root@,
        walk_depth(it) == max_depth,
{
    walkdir::WalkDir::new(root).max_depth(max_depth).into_iter()
}

/// Relies on `walkdir::IntoIter::next`: the next entry of the walk (its
/// path as text), an error's display text, or nothing once the walk is
/// done.  Every yielded entry's path is the walk's root joined with the
/// entry's name chain, so its text extends the root's and gains at most
/// one separator per level, and no entry lies deeper than the depth bound.
/// The walk does not follow symbolic links and its depth is bounded, so it
/// is finite: each yielded entry shrinks what remains.
#[verifier::external_body]
fn walk_next(it: &mut walkdir::IntoIter) -> (r: Option<Result<String, String>>)
    ensures
        walk_root(*final(it)) == walk_root(*old(it)),
        walk_depth(*final(it)) == walk_depth(*old(it)),
        r is Some ==> walk_remaining(*final(it)) < walk_remaining(*old(it)),
        r matches Some(Ok(p)) ==> walk_root(*old(it)).is_prefix_of(p@) && spec_count_char(p@, '/')
            <= spec_count_char(walk_root(*old(it)), '/') + walk_depth(*old(it)),
{
    match it.next() {
        None => None,
        Some(Ok(entry)) => Some(Ok(entry.path().display().to_string())),
        Some(Err(e)) => Some(Err(e.to_string())),
    }
}

/// How often a character occurs in a sequence.
pub open spec fn spec_count_char(s: Seq<char>, c: char) -> nat
    decreases s.len(),
{
    if s.len() == 0 {
        0
    } else {
        spec_count_char(s.drop_last(), c) + if s.last() == c {
            1nat
        } else {
            0nat
        }
    }
}

/// Counts the occurrences of a character in a string.
fn count_char(s: &str, c: char) -> (n: usize)
    ensures
        n == spec_count_char(s@, c),
{
    let len = s.unicode_len();
    let mut n: usize = 0;
    let mut i: usize = 0;
    proof {
        assert(s@.take(0) =~= Seq::<char>::empty());
    }
    while i < len
        invariant
            i <= len,
            len == s@.len(),
            n <= i,
            n == spec_count_char(s@.take(i as int), c),
        decreases len - i,
    {
        proof {
            assert(s@.take(i + 1).drop_last() =~= s@.take(i as int));
        }
        if s.get_char(i) == c {
            n = n + 1;
        }
        i = i + 1;
    }
    proof {
        assert(s@.take(len as int) =~= s@);
    }
    n
}

/// Whether a walk yielded no error.
pub open spec fn spec_error_free(entries: Seq<Result<String, String>>) -> bool {
    forall|k: int| 0 <= k < entries.len() ==> (#[trigger] entries[k]) is Ok
}

/// The first error a walk yielded.
pub open spec fn spec_first_error(entries: Seq<Result<String, String>>) -> Seq<char>
    decreases entries.len(),
{
    if entries.len() == 0 {
        Seq::empty()
    } else if entries[0] is Err {
        entries[0]->Err_0@
    } else {
        spec_first_error(entries.subrange(1, entries.len() as int))
    }
}

/// The paths among a walk's yields that a pattern accepts, in yield order.
pub open spec fn spec_matches_of(pattern: Seq<char>, entries: Seq<Result<String, String>>) -> Seq<
    Seq<char>,
>
    decreases entries.len(),
{
    if entries.len() == 0 {
        Seq::empty()
    } else {
        let pre = spec_matches_of(pattern, entries.drop_last());
        match entries.last() {
            Ok(p) => if regex_accepts(pattern, p@) {
                pre.push(p@)
            } else {
                pre
            },
            Err(e) => pre,
        }
    }
}

/// An error at position `i`, with everything before it error-free, is the
/// first error of the whole yield sequence.
proof fn lemma_first_error_at(entries: Seq<Result<String, String>>, i: int)
    requires
        0 <= i < entries.len(),
        forall|k: int| 0 <= k < i ==> (#[trigger] entries[k]) is Ok,
        entries[i] is Err,
    ensures
        !spec_error_free(entries),
        spec_first_error(entries) == entries[i]->Err_0@,
    decreases i,
{
    if i > 0 {
        let rest = entries.subrange(1, entries.len() as int);
        assert forall|k: int| 0 <= k < i - 1 implies (#[trigger] rest[k]) is Ok by {
            assert(rest[k] == entries[k + 1]);
        }
        assert(rest[i - 1] == entries[i]);
        lemma_first_error_at(rest, i - 1);
    }
}

/// Every selected match is one of the walk's yields, so it inherits
/// whatever holds of them, and the pattern accepts it.
proof fn lemma_matches_of_members(
    pattern: Seq<char>,
    entries: Seq<Result<String, String>>,
    root: Seq<char>,
    bound: nat,
)
    requires
        forall|k: int|
            0 <= k < entries.len() && (#[trigger] entries[k]) is Ok ==> root.is_prefix_of(
                entries[k]->Ok_0@,
            ) && spec_count_char(entries[k]->Ok_0@, '/') <= bound,
    ensures
        forall|j: int|
            0 <= j < spec_matches_of(pattern, entries).len() ==> regex_accepts(
                pattern,
                #[trigger] spec_matches_of(pattern, entries)[j],
            ) && root.is_prefix_of(spec_matches_of(pattern, entries)[j]) && spec_count_char(
                spec_matches_of(pattern, entries)[j],
                '/',
            ) <= bound,
    decreases entries.len(),
{
    if entries.len() > 0 {
        let pre = entries.drop_last();
        assert forall|k: int|
            0 <= k < pre.len() && (#[trigger] pre[k]) is Ok implies root.is_prefix_of(
            pre[k]->Ok_0@,
        ) && spec_count_char(pre[k]->Ok_0@, '/') <= bound by {
            assert(pre[k] == entries[k]);
        }
        lemma_matches_of_members(pattern, pre, root, bound);
        assert(entries[entries.len() - 1] == entries.last());
        let m = spec_matches_of(pattern, entries);
        let pm = spec_matches_of(pattern, pre);
        assert forall|j: int|
            0 <= j < m.len() implies regex_accepts(pattern, #[trigger] m[j]) && root.is_prefix_of(
            m[j],
        ) && spec_count_char(m[j], '/') <= bound by {
            if j < pm.len() {
                assert(m[j] == pm[j]);
            } else {
                assert(m[j] == entries.last()->Ok_0@);
            }
        }
    }
}

/// Keeps, in order, exactly the walked paths the pattern accepts.
///
/// Given the entries a walk yielded, the result is an error exactly when
/// some yield is one, and then the first such error; otherwise it is
/// exactly those yielded paths the regex accepts, in yield order.
pub fn select_matches(re: &regex::Regex, entries: &Vec<Result<String, String>>) -> (r: Result<
    Vec<String>,
    String,
>)
    ensures
        r is Ok <==> spec_error_free(entries@),
        r is Ok ==> r->Ok_0.deep_view() == spec_matches_of(regex_pattern(*re), entries@),
        r is Err ==> r->Err_0@ == spec_first_error(entries@),
{
    let mut out: Vec<String> = Vec::new();
    let mut i: usize = 0;
    proof {
        assert(entries@.take(0) =~= Seq::<Result<String, String>>::empty());
        assert(out.deep_view() =~= Seq::<Seq<char>>::empty());
    }
    while i < entries.len()
        invariant
            i <= entries@.len(),
            forall|k: int| 0 <= k < i ==> (#[trigger] entries@[k]) is Ok,
            out.deep_view() == spec_matches_of(regex_pattern(*re), entries@.take(i as int)),
        decreases entries@.len() - i,
    {
        proof {
            assert(entries@.take(i + 1).drop_last() =~= entries@.take(i as int));
            assert(entries@.take(i + 1).last() == entries@[i as int]);
        }
        let entry = &entries[i];
        match entry {
            Ok(path) => {
                if regex_is_match(re, path.as_str()) {
                    let ghost prev = out.deep_view();
                    out.push(path.clone());
                    proof {
                        assert(out.deep_view() =~= prev.push(path@));
                    }
                }
            },
            Err(message) => {
                proof {
                    lemma_first_error_at(entries@, i as int);
                }
                return Err(message.clone());
            },
        }
        i = i + 1;
    }
    proof {
        assert(entries@.take(entries@.len() as int) =~= entries@);
    }
    Ok(out)
}

/// Resolves one compiled expression against the filesystem.
///
/// The traversal root and pattern prefix follow the expression's first
/// character: a path separator means an absolute walk from the filesystem
/// root with no prefix, anything else a walk under the working-directory
/// prefix `cwd` (passed in explicitly so that no process state is read).
/// A pattern that does not compile aborts with that failure's text before
/// anything is walked.  The walk is rooted as chosen and bounded by the
/// final pattern's separator count, so every returned path extends the
/// chosen root and stays within the bound; the result keeps, in visitation
/// order, exactly the visited paths the final pattern matches, or the
/// walk's first error.
pub fn resolve_one(re_str: &str, cwd: &str) -> (r: Result<Vec<String>, String>)
    ensures
        r is Ok ==> regex_compiles(spec_full_pattern(re_str@, cwd@)),
        !regex_compiles(spec_full_pattern(re_str@, cwd@)) ==> r is Err && r->Err_0@
            == regex_error_text(spec_full_pattern(re_str@, cwd@)),
        r is Ok ==> forall|j: int|
            0 <= j < r->Ok_0@.len() ==> regex_accepts(
                spec_full_pattern(re_str@, cwd@),
                #[trigger] r->Ok_0@[j]@,
            ) && spec_walk_root(re_str@, cwd@).is_prefix_of(r->Ok_0@[j]@) && spec_count_char(
                r->Ok_0@[j]@,
                '/',
            ) <= spec_count_char(spec_walk_root(re_str@, cwd@), '/') + spec_count_char(
                spec_full_pattern(re_str@, cwd@),
                '/',
            ),
{
    let is_abs = re_str.unicode_len() > 0 && re_str.get_char(0) == '/';
    let prefix: &str = if is_abs {
        ""
    } else {
        cwd
    };
    let root: &str = if is_abs {
        "/"
    } else {
        cwd
    };
    let combined = String::from_str(prefix).concat(re_str);
    proof {
        reveal_strlit("");
        assert(""@ =~= Seq::<char>::empty());
        assert(combined@ == spec_full_pattern(re_str@, cwd@));
        assert(root@ == spec_walk_root(re_str@, cwd@));
    }
    let re = match regex_new(combined.as_str()) {
        Ok(re) => re,
        Err(e) => {
            return Err(e);
        },
    };
    let depth = count_char(combined.as_str(), '/');
    let mut it = walk_iter(root, depth);
    let mut yields: Vec<Result<String, String>> = Vec::new();
    loop
        invariant
            walk_root(it) == spec_walk_root(re_str@, cwd@),
            walk_depth(it) == spec_count_char(spec_full_pattern(re_str@, cwd@), '/'),
            forall|k: int|
                0 <= k < yields@.len() && (#[trigger] yields@[k]) is Ok ==> spec_walk_root(
                    re_str@,
                    cwd@,
                ).is_prefix_of(yields@[k]->Ok_0@) && spec_count_char(yields@[k]->Ok_0@, '/')
                    <= spec_count_char(spec_walk_root(re_str@, cwd@), '/') + spec_count_char(
                    spec_full_pattern(re_str@, cwd@),
                    '/',
                ),
        ensures
            forall|k: int|
                0 <= k < yields@.len() && (#[trigger] yields@[k]) is Ok ==> spec_walk_root(
                    re_str@,
                    cwd@,
                ).is_prefix_of(yields@[k]->Ok_0@) && spec_count_char(yields@[k]->Ok_0@, '/')
                    <= spec_count_char(spec_walk_root(re_str@, cwd@), '/') + spec_count_char(
                    spec_full_pattern(re_str@, cwd@),
                    '/',
                ),
        decreases walk_remaining(it),
    {
        match walk_next(&mut it) {
            None => {
                break;
            },
            Some(item) => {
                let ghost prev = yields@;
                yields.push(item);
                proof {
                    assert forall|k: int|
                        0 <= k < yields@.len() && (#[trigger] yields@[k]) is Ok implies
                        spec_walk_root(re_str@, cwd@).is_prefix_of(yields@[k]->Ok_0@)
                        && spec_count_char(yields@[k]->Ok_0@, '/') <= spec_count_char(
                        spec_walk_root(re_str@, cwd@),
                        '/',
                    ) + spec_count_char(spec_full_pattern(re_str@, cwd@), '/') by {
                        if k < prev.len() {
                            assert(yields@[k] == prev[k]);
                        }
                    }
                }
            },
        }
    }
    let r = select_matches(&re, &yields);
    proof {
        lemma_matches_of_members(
            spec_full_pattern(re_str@, cwd@),
            yields@,
            spec_walk_root(re_str@, cwd@),
            spec_count_char(spec_walk_root(re_str@, cwd@), '/') + spec_count_char(
                spec_full_pattern(re_str@, cwd@),
                '/',
            ),
        );
        if r is Ok {
            assert forall|j: int| 0 <= j < r->Ok_0@.len() implies regex_accepts(
                spec_full_pattern(re_str@, cwd@),
                #[trigger] r->Ok_0@[j]@,
            ) && spec_walk_root(re_str@, cwd@).is_prefix_of(r->Ok_0@[j]@) && spec_count_char(
                r->Ok_0@[j]@,
                '/',
            ) <= spec_count_char(spec_walk_root(re_str@, cwd@), '/') + spec_count_char(
                spec_full_pattern(re_str@, cwd@),
                '/',
            ) by {
                assert(r->Ok_0.deep_view()[j] == r->Ok_0@[j]@);
            }
        }
    }
    r
}

/// Resolves each compiled expression against the filesystem, in order,
/// with relative expressions resolved under the working-directory prefix
/// `cwd`.
///
/// On success there is one match list per expression, in input order;
/// every final pattern compiled, and every listed path is matched by its
/// expression's final pattern, extends that expression's walk root, and
/// stays within its separator-count depth bound.  The first
/// pattern-compilation failure or traversal error aborts the whole
/// resolution with that failure's message; in particular a first
/// expression that does not compile yields exactly its compile error's
/// text.
pub fn valid_paths(re_vec: Vec<String>, cwd: &str) -> (r: Result<Vec<Vec<String>>, String>)
    ensures
        r is Ok ==> r->Ok_0@.len() == re_vec@.len(),
        r is Ok ==> forall|i: int|
            0 <= i < re_vec@.len() ==> regex_compiles(
                spec_full_pattern(#[trigger] re_vec@[i]@, cwd@),
            ),
        r is Ok ==> forall|i: int, j: int|
            0 <= i < re_vec@.len() && 0 <= j < r->Ok_0@[i]@.len() ==> regex_accepts(
                spec_full_pattern(re_vec@[i]@, cwd@),
                #[trigger] r->Ok_0@[i]@[j]@,
            ) && spec_walk_root(re_vec@[i]@, cwd@).is_prefix_of(r->Ok_0@[i]@[j]@)
                && spec_count_char(r->Ok_0@[i]@[j]@, '/') <= spec_count_char(
                spec_walk_root(re_vec@[i]@, cwd@),
                '/',
            ) + spec_count_char(spec_full_pattern(re_vec@[i]@, cwd@), '/'),
        re_vec@.len() > 0 && !regex_compiles(spec_full_pattern(re_vec@[0]@, cwd@)) ==> r is Err
            && r->Err_0@ == regex_error_text(spec_full_pattern(re_vec@[0]@, cwd@)),
{
    let mut paths: Vec<Vec<String>> = Vec::new();
    let mut i: usize = 0;
    while i < re_vec.len()
        invariant
            i <= re_vec@.len(),
            paths@.len() == i,
            forall|k: int|
                0 <= k < i ==> regex_compiles(spec_full_pattern(#[trigger] re_vec@[k]@, cwd@)),
            forall|k: int, j: int|
                0 <= k < i && 0 <= j < paths@[k]@.len() ==> regex_accepts(
                    spec_full_pattern(re_vec@[k]@, cwd@),
                    #[trigger] paths@[k]@[j]@,
                ) && spec_walk_root(re_vec@[k]@, cwd@).is_prefix_of(paths@[k]@[j]@)
                    && spec_count_char(paths@[k]@[j]@, '/') <= spec_count_char(
                    spec_walk_root(re_vec@[k]@, cwd@),
                    '/',
                ) + spec_count_char(spec_full_pattern(re_vec@[k]@, cwd@), '/'),
        decreases re_vec@.len() - i,
    {
        match resolve_one(re_vec[i].as_str(), cwd) {
            Ok(matches) => {
                let ghost prev = paths@;
                paths.push(matches);
                proof {
                    assert forall|k: int, j: int|
                        0 <= k < paths@.len() && 0 <= j < paths@[k]@.len() implies regex_accepts(
                        spec_full_pattern(re_vec@[k]@, cwd@),
                        #[trigger] paths@[k]@[j]@,
                    ) && spec_walk_root(re_vec@[k]@, cwd@).is_prefix_of(paths@[k]@[j]@)
                        && spec_count_char(paths@[k]@[j]@, '/') <= spec_count_char(
                        spec_walk_root(re_vec@[k]@, cwd@),
                        '/',
                    ) + spec_count_char(spec_full_pattern(re_vec@[k]@, cwd@), '/') by {
                        if k < prev.len() {
                            assert(paths@[k] == prev[k]);
                        }
                    }
                }
            },
            Err(e) => {
                return Err(e);
            },
        }
        i = i + 1;
    }
    proof {
        if re_vec@.len() > 0 {
            assert(regex_compiles(spec_full_pattern(re_vec@[0]@, cwd@)));
        }
    }
    Ok(paths)
}

} // verus!
