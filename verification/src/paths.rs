//! Where the catalogue keeps its files, and the path arithmetic behind it.
//!
//! Paths are strings with `/` as the separator. `file_name`, `stem_of`,
//! `extension_of` and `joined` follow the rules of the standard library's
//! `Path::file_name`, `Path::file_stem`, `Path::extension` and `PathBuf::push`
//! for such paths: a path's name is its last component, trailing separators
//! and `.` components are skipped, and `..` or an empty path has no name.
use vstd::prelude::*;
use crate::text::{concat, substring};

verus! {

/// One past the position of the last `/` in `s`, or 0 when there is none.
pub open spec fn last_sep_end(s: Seq<char>) -> int
    decreases s.len(),
{
    if s.len() == 0 {
        0
    } else if s.last() == '/' {
        s.len() as int
    } else {
        last_sep_end(s.drop_last())
    }
}

/// `last_sep_end` lies within the sequence.
pub proof fn lemma_last_sep_end_bounds(s: Seq<char>)
    ensures
        0 <= last_sep_end(s) <= s.len(),
        last_sep_end(s) > 0 ==> s[last_sep_end(s) - 1] == '/',
        forall|k: int| last_sep_end(s) <= k < s.len() ==> s[k] != '/',
    decreases s.len(),
{
    if s.len() > 0 && s.last() != '/' {
        let t = s.drop_last();
        lemma_last_sep_end_bounds(t);
        assert forall|k: int| last_sep_end(s) <= k < s.len() implies s[k] != '/' by {
            if k < s.len() - 1 {
                assert(t[k] == s[k]);
            }
        }
        if last_sep_end(s) > 0 {
            assert(t[last_sep_end(s) - 1] == s[last_sep_end(s) - 1]);
        }
    }
}

/// The last component of a path, if it is a proper name.
pub open spec fn file_name(p: Seq<char>) -> Option<Seq<char>>
    decreases p.len(),
{
    if p.len() == 0 {
        None
    } else if p.last() == '/' {
        file_name(p.drop_last())
    } else {
        let start = last_sep_end(p);
        let seg = p.subrange(start, p.len() as int);
        if seg == seq!['.'] {
            if 0 < start {
                proof {
                    lemma_last_sep_end_bounds(p);
                }
                file_name(p.subrange(0, start))
            } else {
                None
            }
        } else if seg == seq!['.', '.'] {
            None
        } else {
            Some(seg)
        }
    }
}

/// A name as returned by `file_name` is non-empty, holds no separator and is
/// neither `.` nor `..`.
pub open spec fn is_plain_name(n: Seq<char>) -> bool {
    &&& n.len() > 0
    &&& !n.contains('/')
    &&& n != seq!['.']
    &&& n != seq!['.', '.']
}

/// What `file_name` returns is a plain name.
pub proof fn lemma_file_name_plain(p: Seq<char>)
    ensures
        file_name(p) matches Some(n) ==> is_plain_name(n),
    decreases p.len(),
{
    if p.len() > 0 {
        if p.last() == '/' {
            lemma_file_name_plain(p.drop_last());
        } else {
            lemma_last_sep_end_bounds(p);
            let start = last_sep_end(p);
            let seg = p.subrange(start, p.len() as int);
            if seg == seq!['.'] {
                if 0 < start {
                    lemma_file_name_plain(p.subrange(0, start));
                }
            } else if seg != seq!['.', '.'] {
                assert forall|k: int| 0 <= k < seg.len() implies seg[k] != '/' by {
                    assert(seg[k] == p[start + k]);
                }
            }
        }
    }
}

/// A plain name is its own name.
pub proof fn lemma_file_name_of_plain(n: Seq<char>)
    requires
        is_plain_name(n),
    ensures
        file_name(n) == Some(n),
{
    assert(n.last() != '/') by {
        assert(n[n.len() - 1] == n.last());
    }
    lemma_last_sep_end_zero(n);
    assert(n.subrange(0, n.len() as int) =~= n);
}

proof fn lemma_last_sep_end_zero(s: Seq<char>)
    requires
        !s.contains('/'),
    ensures
        last_sep_end(s) == 0,
    decreases s.len(),
{
    if s.len() > 0 {
        assert(s.last() == s[s.len() - 1]);
        assert(!s.drop_last().contains('/')) by {
            if s.drop_last().contains('/') {
                let k = choose|k: int| 0 <= k < s.drop_last().len() && s.drop_last()[k] == '/';
                assert(s[k] == '/');
            }
        }
        lemma_last_sep_end_zero(s.drop_last());
    }
}

/// Taking the name of a name changes nothing.
pub proof fn lemma_file_name_idempotent(p: Seq<char>)
    ensures
        file_name(p) matches Some(n) ==> file_name(n) == Some(n),
{
    lemma_file_name_plain(p);
    if let Some(n) = file_name(p) {
        lemma_file_name_of_plain(n);
    }
}

/// Position of the last `.` in `s`, or -1 when there is none.
pub open spec fn last_dot(s: Seq<char>) -> int
    decreases s.len(),
{
    if s.len() == 0 {
        -1
    } else if s.last() == '.' {
        s.len() - 1
    } else {
        last_dot(s.drop_last())
    }
}

proof fn lemma_last_dot_bounds(s: Seq<char>)
    ensures
        -1 <= last_dot(s) < s.len(),
        last_dot(s) >= 0 ==> s[last_dot(s)] == '.',
    decreases s.len(),
{
    if s.len() > 0 && s.last() != '.' {
        lemma_last_dot_bounds(s.drop_last());
    }
}

/// A file name without its extension (`Path::file_stem` of a name): everything
/// before the last dot, unless that dot is the first character or missing.
pub open spec fn stem_of(name: Seq<char>) -> Seq<char> {
    let i = last_dot(name);
    if i <= 0 {
        name
    } else {
        name.subrange(0, i)
    }
}

/// The extension of a file name (`Path::extension` of a name).
pub open spec fn extension_of(name: Seq<char>) -> Option<Seq<char>> {
    let i = last_dot(name);
    if i <= 0 {
        None
    } else {
        Some(name.subrange(i + 1, name.len() as int))
    }
}

/// `PathBuf::push`: an absolute `name` replaces `base`; otherwise `name` is
/// appended after a separator, unless `base` is empty or already ends in one.
pub open spec fn joined(base: Seq<char>, name: Seq<char>) -> Seq<char> {
    if name.len() > 0 && name[0] == '/' {
        name
    } else if base.len() == 0 {
        name
    } else if base.last() == '/' {
        base + name
    } else {
        base + seq!['/'] + name
    }
}

/// An absolute path begins at the root.
pub open spec fn is_absolute(p: Seq<char>) -> bool {
    p.len() > 0 && p[0] == '/'
}

/// Position one past the last `/` among the first `end` characters of `s`.
fn last_sep_before(s: &str, end: usize) -> (r: usize)
    requires
        end <= s@.len(),
    ensures
        r as int == last_sep_end(s@.take(end as int)),
{
    let mut j: usize = end;
    while j > 0
        invariant
            end <= s@.len(),
            j <= end,
            last_sep_end(s@.take(end as int)) == last_sep_end(s@.take(j as int)),
        decreases j,
    {
        if s.get_char(j - 1) == '/' {
            assert(s@.take(j as int).last() == '/');
            return j;
        }
        assert(s@.take(j as int).drop_last() =~= s@.take(j - 1));
        j = j - 1;
    }
    j
}

/// Whether `s@[from..to]` is exactly `.` or exactly `..`.
fn is_dot_segment(s: &str, from: usize, to: usize, dots: usize) -> (r: bool)
    requires
        from <= to <= s@.len(),
        dots == 1 || dots == 2,
    ensures
        r == if dots == 1 {
            s@.subrange(from as int, to as int) == seq!['.']
        } else {
            s@.subrange(from as int, to as int) == seq!['.', '.']
        },
{
    let ghost seg = s@.subrange(from as int, to as int);
    let ghost one: Seq<char> = seq!['.'];
    let ghost two: Seq<char> = seq!['.', '.'];
    assert(one.len() == 1 && one[0] == '.');
    assert(two.len() == 2 && two[0] == '.' && two[1] == '.');
    if to - from != dots {
        assert(seg.len() != dots);
        return false;
    }
    let a = s.get_char(from);
    assert(seg[0] == a);
    if dots == 1 {
        if a == '.' {
            assert(seg =~= one);
        }
        a == '.'
    } else {
        let b = s.get_char(from + 1);
        assert(seg[1] == b);
        if a == '.' && b == '.' {
            assert(seg =~= two);
        }
        a == '.' && b == '.'
    }
}

/// The name of the last component of `p` (`Path::file_name`).
pub fn path_file_name(p: &str) -> (r: Option<String>)
    ensures
        r matches Some(n) ==> file_name(p@) == Some(n@),
        r is None ==> file_name(p@) is None,
{
    let len: usize = p.unicode_len();
    let mut end: usize = len;
    assert(p@.take(len as int) =~= p@);
    loop
        invariant
            len == p@.len(),
            end <= len,
            file_name(p@) == file_name(p@.take(end as int)),
        decreases end,
    {
        if end == 0 {
            return None;
        }
        let ghost t = p@.take(end as int);
        if p.get_char(end - 1) == '/' {
            assert(t.drop_last() =~= p@.take(end - 1));
            end = end - 1;
        } else {
            let start = last_sep_before(p, end);
            proof {
                lemma_last_sep_end_bounds(t);
                assert(t.subrange(start as int, end as int) =~= p@.subrange(start as int, end as int));
            }
            if is_dot_segment(p, start, end, 1) {
                if start == 0 {
                    return None;
                }
                assert(t.subrange(0, start as int) =~= p@.take(start as int));
                end = start;
            } else if is_dot_segment(p, start, end, 2) {
                return None;
            } else {
                return Some(substring(p, start, end));
            }
        }
    }
}

/// Position of the last `.` in `s`, or `None`.
fn find_last_dot(s: &str) -> (r: Option<usize>)
    ensures
        r matches Some(i) ==> i as int == last_dot(s@),
        r is None ==> last_dot(s@) == -1,
{
    let n: usize = s.unicode_len();
    let mut j: usize = n;
    assert(s@.take(n as int) =~= s@);
    while j > 0
        invariant
            n == s@.len(),
            j <= n,
            last_dot(s@) == last_dot(s@.take(j as int)),
        decreases j,
    {
        if s.get_char(j - 1) == '.' {
            assert(s@.take(j as int).last() == '.');
            return Some(j - 1);
        }
        assert(s@.take(j as int).drop_last() =~= s@.take(j - 1));
        j = j - 1;
    }
    None
}

/// The stem of a file name (`Path::file_stem` applied to a name).
pub fn name_stem(name: &str) -> (r: String)
    ensures
        r@ == stem_of(name@),
{
    proof {
        lemma_last_dot_bounds(name@);
    }
    match find_last_dot(name) {
        Some(i) => {
            if i == 0 {
                name.to_owned()
            } else {
                substring(name, 0, i)
            }
        },
        None => name.to_owned(),
    }
}

/// The extension of a file name (`Path::extension` applied to a name).
pub fn name_extension(name: &str) -> (r: Option<String>)
    ensures
        r matches Some(e) ==> extension_of(name@) == Some(e@),
        r is None ==> extension_of(name@) is None,
{
    proof {
        lemma_last_dot_bounds(name@);
    }
    let n: usize = name.unicode_len();
    match find_last_dot(name) {
        Some(i) => {
            if i == 0 {
                None
            } else {
                Some(substring(name, i + 1, n))
            }
        },
        None => None,
    }
}

/// Appends `name` to `base` as `PathBuf::push` does.
pub fn join_path(base: &str, name: &str) -> (r: String)
    ensures
        r@ == joined(base@, name@),
{
    if name.unicode_len() > 0 && name.get_char(0) == '/' {
        return name.to_owned();
    }
    let bl: usize = base.unicode_len();
    if bl == 0 {
        return name.to_owned();
    }
    if base.get_char(bl - 1) == '/' {
        concat(base, name)
    } else {
        let mut r = base.to_owned();
        r.push('/');
        r.append(name);
        r
    }
}

/// Whether `p` is an absolute path.
pub fn path_is_absolute(p: &str) -> (r: bool)
    ensures
        r == is_absolute(p@),
{
    p.unicode_len() > 0 && p.get_char(0) == '/'
}

/// The data file inside the application directory.
pub fn data_path(app_dir: &str) -> (r: String)
    ensures
        r@ == joined(app_dir@, "data.json"@),
{
    join_path(app_dir, "data.json")
}

/// The settings file inside the application directory.
pub fn settings_path(app_dir: &str) -> (r: String)
    ensures
        r@ == joined(app_dir@, "settings.json"@),
{
    join_path(app_dir, "settings.json")
}

/// After an empty prefix or one ending in a separator, a name without
/// separators reaches back exactly to the prefix.
proof fn lemma_last_sep_after(pre: Seq<char>, n: Seq<char>)
    requires
        !n.contains('/'),
        pre.len() == 0 || pre.last() == '/',
    ensures
        last_sep_end(pre + n) == pre.len(),
    decreases n.len(),
{
    if n.len() == 0 {
        assert(pre + n =~= pre);
    } else {
        assert(n.last() == n[n.len() - 1]);
        assert(!n.drop_last().contains('/')) by {
            if n.drop_last().contains('/') {
                let k = choose|k: int| 0 <= k < n.drop_last().len() && n.drop_last()[k] == '/';
                assert(n[k] == '/');
            }
        }
        lemma_last_sep_after(pre, n.drop_last());
        assert((pre + n).drop_last() =~= pre + n.drop_last());
        assert((pre + n).last() == n.last());
    }
}

/// A plain name put after an empty prefix or one ending in a separator is
/// the name of the resulting path.
proof fn lemma_file_name_after_sep(pre: Seq<char>, n: Seq<char>)
    requires
        is_plain_name(n),
        pre.len() == 0 || pre.last() == '/',
    ensures
        file_name(pre + n) == Some(n),
{
    lemma_last_sep_after(pre, n);
    let p = pre + n;
    assert(p.last() == n[n.len() - 1]);
    assert(p.subrange(pre.len() as int, p.len() as int) =~= n);
}

/// A name of more than two characters without a separator is plain.
proof fn lemma_plain_literal(n: Seq<char>)
    requires
        n.len() > 2,
        forall|k: int| 0 <= k < n.len() ==> #[trigger] n[k] != '/',
    ensures
        is_plain_name(n),
{
}

/// The data file and the settings file lie side by side in the application
/// directory: both paths are one and the same folder prefix (empty, or
/// ending in a separator) followed by their file names, which are
/// `data.json` and `settings.json`.
pub proof fn lemma_data_and_settings_share_folder(app_dir: Seq<char>)
    ensures
        exists|pre: Seq<char>|
            (pre.len() == 0 || pre.last() == '/') && #[trigger] joined(app_dir, "data.json"@) == pre
                + "data.json"@ && joined(app_dir, "settings.json"@) == pre + "settings.json"@,
        file_name(joined(app_dir, "data.json"@)) == Some("data.json"@),
        file_name(joined(app_dir, "settings.json"@)) == Some("settings.json"@),
{
    reveal_strlit("data.json");
    reveal_strlit("settings.json");
    let d = "data.json"@;
    let t = "settings.json"@;
    let pre = if app_dir.len() == 0 {
        app_dir
    } else if app_dir.last() == '/' {
        app_dir
    } else {
        app_dir + seq!['/']
    };
    assert(pre.len() == 0 || pre.last() == '/');
    assert(joined(app_dir, d) =~= pre + d);
    assert(joined(app_dir, t) =~= pre + t);
    lemma_plain_literal(d);
    lemma_plain_literal(t);
    lemma_file_name_after_sep(pre, d);
    lemma_file_name_after_sep(pre, t);
}

/// The directory of data-file snapshots inside the application directory.
pub fn backups_dir(app_dir: &str) -> (r: String)
    ensures
        r@ == joined(app_dir@, "backups"@),
{
    join_path(app_dir, "backups")
}

/// The directory of the photo archive inside the application directory.
pub fn photo_archive_dir(app_dir: &str) -> (r: String)
    ensures
        r@ == joined(app_dir@, "photo-archive"@),
{
    join_path(app_dir, "photo-archive")
}

/// Where a stored photo lives. An empty name resolves to the empty path; an
/// absolute path to an existing file is kept as it is; anything else is
/// reduced to its file name (or kept whole when it has none) and looked up in
/// the photos directory.
pub open spec fn resolved_photo(stored: Seq<char>, photos_dir: Seq<char>, exists: bool) -> Seq<char> {
    if stored.len() == 0 {
        Seq::empty()
    } else if is_absolute(stored) && exists {
        stored
    } else {
        joined(
            photos_dir,
            match file_name(stored) {
                Some(n) => n,
                None => stored,
            },
        )
    }
}

/// The path of a stored photo, given the photos directory and whether
/// `stored`, read as a path, names an existing file.
pub fn resolve_photo(stored: &str, photos_dir: &str, exists: bool) -> (r: String)
    ensures
        r@ == resolved_photo(stored@, photos_dir@, exists),
{
    if stored.unicode_len() == 0 {
        return String::new();
    }
    if path_is_absolute(stored) && exists {
        return stored.to_owned();
    }
    match path_file_name(stored) {
        Some(n) => join_path(photos_dir, n.as_str()),
        None => join_path(photos_dir, stored),
    }
}

/// The file name of the cached thumbnail of a stored photo: the photo's stem
/// (or `thumb` when it has no name) with the `.jpg` extension.
pub open spec fn thumb_name(stored: Seq<char>) -> Seq<char> {
    match file_name(stored) {
        Some(n) => stem_of(n) + ".jpg"@,
        None => "thumb.jpg"@,
    }
}

/// The cached thumbnail path of a stored photo, inside `thumbs_dir`.
pub fn thumb_path_for(stored: &str, thumbs_dir: &str) -> (r: String)
    ensures
        r@ == joined(thumbs_dir@, thumb_name(stored@)),
{
    let name = match path_file_name(stored) {
        Some(n) => {
            let stem = name_stem(n.as_str());
            concat(stem.as_str(), ".jpg")
        },
        None => "thumb.jpg".to_owned(),
    };
    join_path(thumbs_dir, name.as_str())
}

/// The extension a copied or imported photo keeps: the source's extension,
/// or `jpg` when it has none.
pub open spec fn kept_extension(src: Seq<char>) -> Seq<char> {
    match file_name(src) {
        Some(n) => match extension_of(n) {
            Some(e) => e,
            None => "jpg"@,
        },
        None => "jpg"@,
    }
}

/// The extension kept for a photo copied from `src`.
pub fn photo_extension(src: &str) -> (r: String)
    ensures
        r@ == kept_extension(src@),
{
    match path_file_name(src) {
        Some(n) => match name_extension(n.as_str()) {
            Some(e) => e,
            None => "jpg".to_owned(),
        },
        None => "jpg".to_owned(),
    }
}

} // verus!
