//! The wallpaper path resolver: computes, from the active wallpaper's path,
//! the backup ("original") path and the output ("annotated") path, and
//! decides which filesystem actions a run must perform. The filesystem
//! itself is driven by the caller; every decision here is pure.

use vstd::prelude::*;

use crate::strings::{
    ends_with, find_last, has_char, last_index_of, lemma_last_index_of,
    lemma_last_index_of_append_free, lemma_tail_free, spec_ends_with,
};
use crate::WallError;

verus! {

/// The filename token that distinguishes an annotated wallpaper from its
/// original, appended to the stem just before the extension.
pub open spec fn marker() -> Seq<char> {
    seq!['-', 't', 'o', 'd', 'o', '-', 'r', 's']
}

/// The filename part of `p`: everything after the last `/`, or all of `p`
/// when it has none.
pub open spec fn spec_filename(p: Seq<char>) -> Seq<char> {
    p.subrange(last_index_of(p, '/') + 1, p.len() as int)
}

/// The part of `name` before its last `.`.
pub open spec fn spec_stem(name: Seq<char>) -> Seq<char>
    recommends
        has_char(name, '.'),
{
    name.subrange(0, last_index_of(name, '.'))
}

/// The part of `name` after its last `.`.
pub open spec fn spec_ext(name: Seq<char>) -> Seq<char>
    recommends
        has_char(name, '.'),
{
    name.subrange(last_index_of(name, '.') + 1, name.len() as int)
}

/// The stem with the annotated-variant marker stripped, whether or not it
/// was present.
pub open spec fn spec_base_stem(stem: Seq<char>) -> Seq<char> {
    if spec_ends_with(stem, marker()) {
        stem.take(stem.len() - marker().len())
    } else {
        stem
    }
}

/// Whether `p` names an annotated wallpaper: its filename has an extension
/// and its stem carries the marker.
pub open spec fn spec_is_annotated(p: Seq<char>) -> bool {
    has_char(spec_filename(p), '.') && spec_ends_with(spec_stem(spec_filename(p)), marker())
}

/// The backup path of the original wallpaper for active path `active`.
pub open spec fn spec_original_path(dir: Seq<char>, active: Seq<char>) -> Seq<char> {
    let name = spec_filename(active);
    dir + spec_base_stem(spec_stem(name)) + seq!['.'] + spec_ext(name)
}

/// The backup path of the annotated wallpaper for active path `active`.
pub open spec fn spec_annotated_path(dir: Seq<char>, active: Seq<char>) -> Seq<char> {
    let name = spec_filename(active);
    dir + spec_base_stem(spec_stem(name)) + marker() + seq!['.'] + spec_ext(name)
}

/// A backup location for an original wallpaper and the annotated variant
/// beside it. `original` never carries the marker in its stem; `annotated`
/// always does.
pub struct WallpaperPathPair {
    /// Where the pristine copy lives.
    pub original: String,
    /// Where the annotated copy is written.
    pub annotated: String,
}

/// The filesystem work a run owes before rendering.
#[derive(Clone, Copy, Debug, PartialEq, Eq, Structural)]
pub enum ResolvePlan {
    /// Create the backup directory, then copy the active file to `original`.
    CreateDirAndCopy,
    /// Copy the active file to `original`; the directory already exists.
    CopyOnly,
    /// Both the directory and `original` exist; nothing to do.
    NoCopy,
}

/// How many file copies a plan performs.
pub open spec fn spec_copies_of(p: ResolvePlan) -> nat {
    match p {
        ResolvePlan::CreateDirAndCopy => 1,
        ResolvePlan::CopyOnly => 1,
        ResolvePlan::NoCopy => 0,
    }
}

/// The resolver's decision, given whether the active wallpaper carries the
/// marker, whether the backup directory exists, and whether `original`
/// already exists in it.
pub open spec fn spec_resolve_plan(
    active_is_annotated: bool,
    dir_exists: bool,
    original_exists: bool,
) -> Result<ResolvePlan, WallError> {
    if !dir_exists && active_is_annotated {
        Err(WallError::OriginalMissing)
    } else if !dir_exists {
        Ok(ResolvePlan::CreateDirAndCopy)
    } else if !original_exists {
        Ok(ResolvePlan::CopyOnly)
    } else {
        Ok(ResolvePlan::NoCopy)
    }
}

/// Decides the filesystem work a run owes. An annotated active wallpaper
/// with no backup directory is a consistency violation: the original was
/// never captured.
pub fn resolve_plan(active_is_annotated: bool, dir_exists: bool, original_exists: bool) -> (r:
    Result<ResolvePlan, WallError>)
    ensures
        r == spec_resolve_plan(active_is_annotated, dir_exists, original_exists),
{
    if !dir_exists && active_is_annotated {
        Err(WallError::OriginalMissing)
    } else if !dir_exists {
        Ok(ResolvePlan::CreateDirAndCopy)
    } else if !original_exists {
        Ok(ResolvePlan::CopyOnly)
    } else {
        Ok(ResolvePlan::NoCopy)
    }
}

/// Whether the active path names an annotated wallpaper.
pub fn is_annotated_path(active: &str) -> (r: bool)
    ensures
        r == spec_is_annotated(active@),
{
    let n = active.unicode_len();
    let name: &str = match find_last(active, '/') {
        Some(i) => active.substring_char(i + 1, n),
        None => {
            proof {
                assert(active@.subrange(0, n as int) =~= active@);
            }
            active.substring_char(0, n)
        },
    };
    proof {
        assert(name@ == spec_filename(active@));
    }
    let dot: usize = match find_last(name, '.') {
        Some(d) => d,
        None => {
            proof {
                lemma_last_index_of(name@, '.');
            }
            return false;
        },
    };
    let stem = name.substring_char(0, dot);
    let marker_str = "-todo-rs";
    proof {
        reveal_strlit("-todo-rs");
        assert(marker_str@ =~= marker());
    }
    let r = ends_with(stem, marker_str);
    proof {
        lemma_last_index_of(name@, '.');
    }
    r
}

/// Computes the backup pair for `active`, under backup directory `dir`.
/// Returns `None` exactly when the active path's filename has no extension.
pub fn resolve_paths(dir: &str, active: &str) -> (r: Option<WallpaperPathPair>)
    ensures
        match r {
            Some(pair) => has_char(spec_filename(active@), '.') && pair.original@
                == spec_original_path(dir@, active@) && pair.annotated@ == spec_annotated_path(
                dir@,
                active@,
            ),
            None => !has_char(spec_filename(active@), '.'),
        },
{
    let n = active.unicode_len();
    let name: &str = match find_last(active, '/') {
        Some(i) => active.substring_char(i + 1, n),
        None => {
            proof {
                assert(active@.subrange(0, n as int) =~= active@);
            }
            active.substring_char(0, n)
        },
    };
    proof {
        assert(name@ == spec_filename(active@));
    }
    let nl = name.unicode_len();
    let dot: usize = match find_last(name, '.') {
        Some(d) => d,
        None => {
            proof {
                lemma_last_index_of(name@, '.');
            }
            return None;
        },
    };
    proof {
        lemma_last_index_of(name@, '.');
    }
    let stem = name.substring_char(0, dot);
    let ext = name.substring_char(dot + 1, nl);
    let marker_str = "-todo-rs";
    proof {
        reveal_strlit("-todo-rs");
        assert(marker_str@ =~= marker());
    }
    let ml = marker_str.unicode_len();
    let is_ann = ends_with(stem, marker_str);
    let base: &str = if is_ann {
        let sl = stem.unicode_len();
        let b = stem.substring_char(0, sl - ml);
        proof {
            assert(b@ =~= spec_base_stem(spec_stem(name@)));
        }
        b
    } else {
        proof {
            assert(stem@ == spec_base_stem(spec_stem(name@)));
        }
        stem
    };
    let original = dir.to_owned().concat(base).concat(".").concat(ext);
    let annotated = dir.to_owned().concat(base).concat(marker_str).concat(".").concat(ext);
    proof {
        reveal_strlit(".");
        assert("."@ =~= seq!['.']);
        assert(original@ =~= spec_original_path(dir@, active@));
        assert(annotated@ =~= spec_annotated_path(dir@, active@));
    }
    Some(WallpaperPathPair { original, annotated })
}

/// The backup directory under the given home directory: a fixed hidden
/// folder, with a trailing separator so filenames append directly.
pub fn backup_dir_for(home: &str) -> (r: String)
    ensures
        r@ == home@ + "/.todo-wallpaper/"@,
        r@.len() > 0,
        r@.last() == '/',
{
    let suffix = "/.todo-wallpaper/";
    let r = home.to_owned().concat(suffix);
    proof {
        reveal_strlit("/.todo-wallpaper/");
    }
    r
}

/// The marker contains neither a path separator nor a dot.
pub proof fn lemma_marker_plain()
    ensures
        marker().len() == 8,
        !has_char(marker(), '/'),
        !has_char(marker(), '.'),
{
    assert forall|i: int| 0 <= i < marker().len() implies marker()[i] != '/' && marker()[i]
        != '.' by {
        assert(marker()[0] == '-');
        assert(marker()[1] == 't');
        assert(marker()[2] == 'o');
        assert(marker()[3] == 'd');
        assert(marker()[4] == 'o');
        assert(marker()[5] == '-');
        assert(marker()[6] == 'r');
        assert(marker()[7] == 's');
    }
}

/// Appending a separator-free name to a directory that ends in `/` makes a
/// path whose filename is that name.
pub proof fn lemma_filename_append(dir: Seq<char>, name: Seq<char>)
    requires
        dir.len() > 0,
        dir.last() == '/',
        !has_char(name, '/'),
    ensures
        spec_filename(dir + name) == name,
{
    lemma_last_index_of_append_free(dir, name, '/');
    assert(last_index_of(dir, '/') == dir.len() - 1);
    assert((dir + name).subrange(dir.len() as int, (dir + name).len() as int) =~= name);
}

/// A name of the shape `pre` `.` `ext`, with a dot-free `ext`, splits at
/// exactly that dot.
pub proof fn lemma_split_at_dot(pre: Seq<char>, ext: Seq<char>)
    requires
        !has_char(ext, '.'),
    ensures
        has_char(pre + seq!['.'] + ext, '.'),
        spec_stem(pre + seq!['.'] + ext) == pre,
        spec_ext(pre + seq!['.'] + ext) == ext,
{
    let pd = pre + seq!['.'];
    assert(pre + seq!['.'] + ext =~= pd + ext);
    lemma_last_index_of_append_free(pd, ext, '.');
    assert(pd.last() == '.');
    assert(last_index_of(pd, '.') == pd.len() - 1);
    assert((pd + ext)[pre.len() as int] == '.');
    assert((pd + ext).subrange(0, pre.len() as int) =~= pre);
    assert((pd + ext).subrange(pre.len() as int + 1, (pd + ext).len() as int) =~= ext);
}

/// Idempotence of the resolver. The pair is a pure function of the backup
/// directory and the active path, so a second run with the same input
/// computes the same pair; and a run that succeeded leaves the backup
/// directory and `original` in place, so the second run's plan performs no
/// copy. Every plan performs at most one copy.
pub proof fn lemma_resolver_idempotent(
    active_is_annotated: bool,
    dir_exists: bool,
    original_exists: bool,
)
    requires
        spec_resolve_plan(active_is_annotated, dir_exists, original_exists) is Ok,
    ensures
        spec_resolve_plan(active_is_annotated, true, true) == Ok::<ResolvePlan, WallError>(
            ResolvePlan::NoCopy,
        ),
        forall|p: ResolvePlan| spec_copies_of(p) <= 1,
{
}

/// Round-trip of the resolver: resolving with either member of a computed
/// pair as the active path yields the identical pair. The one proviso is the
/// pair's own validity: the base stem (marker stripped) must not itself end
/// in the marker, as the data model demands of an original.
pub proof fn lemma_resolver_round_trip(dir: Seq<char>, active: Seq<char>)
    requires
        dir.len() > 0,
        dir.last() == '/',
        has_char(spec_filename(active), '.'),
        !spec_ends_with(spec_base_stem(spec_stem(spec_filename(active))), marker()),
    ensures
        spec_original_path(dir, spec_original_path(dir, active)) == spec_original_path(dir, active),
        spec_annotated_path(dir, spec_original_path(dir, active)) == spec_annotated_path(
            dir,
            active,
        ),
        spec_original_path(dir, spec_annotated_path(dir, active)) == spec_original_path(
            dir,
            active,
        ),
        spec_annotated_path(dir, spec_annotated_path(dir, active)) == spec_annotated_path(
            dir,
            active,
        ),
{
    let name = spec_filename(active);
    let stem = spec_stem(name);
    let ext = spec_ext(name);
    let base = spec_base_stem(stem);
    lemma_marker_plain();
    lemma_last_index_of(active, '/');
    lemma_tail_free(active, '/');
    lemma_last_index_of(name, '.');
    lemma_tail_free(name, '.');
    assert(!has_char(name, '/'));
    assert(!has_char(ext, '.'));
    assert(!has_char(stem, '/')) by {
        if has_char(stem, '/') {
            let w = choose|i: int| 0 <= i < stem.len() && stem[i] == '/';
            assert(name[w] == '/');
        }
    }
    assert(!has_char(base, '/')) by {
        if has_char(base, '/') {
            let w = choose|i: int| 0 <= i < base.len() && base[i] == '/';
            assert(stem[w] == '/');
        }
    }
    assert(!has_char(ext, '/')) by {
        if has_char(ext, '/') {
            let w = choose|i: int| 0 <= i < ext.len() && ext[i] == '/';
            assert(name[last_index_of(name, '.') + 1 + w] == '/');
        }
    }
    let o_name = base + seq!['.'] + ext;
    let a_name = base + marker() + seq!['.'] + ext;
    // The original path round-trips.
    assert(!has_char(o_name, '/')) by {
        if has_char(o_name, '/') {
            let w = choose|i: int| 0 <= i < o_name.len() && o_name[i] == '/';
            if w < base.len() {
                assert(base[w] == '/');
            } else if w > base.len() {
                assert(ext[w - base.len() - 1] == '/');
            }
        }
    }
    assert(spec_original_path(dir, active) =~= dir + o_name);
    lemma_filename_append(dir, o_name);
    lemma_split_at_dot(base, ext);
    assert(spec_filename(spec_original_path(dir, active)) == o_name);
    assert(spec_stem(o_name) == base);
    assert(spec_ext(o_name) == ext);
    assert(spec_base_stem(base) == base);
    assert(spec_original_path(dir, spec_original_path(dir, active)) == spec_original_path(
        dir,
        active,
    ));
    assert(spec_annotated_path(dir, spec_original_path(dir, active)) == spec_annotated_path(
        dir,
        active,
    ));
    // The annotated path round-trips.
    let bm = base + marker();
    assert(!has_char(a_name, '/')) by {
        if has_char(a_name, '/') {
            let w = choose|i: int| 0 <= i < a_name.len() && a_name[i] == '/';
            if w < base.len() {
                assert(base[w] == '/');
            } else if w < bm.len() {
                assert(marker()[w - base.len()] == '/');
            } else if w > bm.len() {
                assert(ext[w - bm.len() - 1] == '/');
            }
        }
    }
    assert(a_name =~= bm + seq!['.'] + ext);
    assert(spec_annotated_path(dir, active) =~= dir + a_name);
    lemma_filename_append(dir, a_name);
    lemma_split_at_dot(bm, ext);
    assert(spec_filename(spec_annotated_path(dir, active)) == a_name);
    assert(spec_stem(a_name) == bm);
    assert(spec_ext(a_name) == ext);
    assert(spec_ends_with(bm, marker())) by {
        assert(bm.subrange(bm.len() - marker().len(), bm.len() as int) =~= marker());
    }
    assert(spec_base_stem(bm) =~= base);
    assert(spec_original_path(dir, spec_annotated_path(dir, active)) == spec_original_path(
        dir,
        active,
    ));
    assert(spec_annotated_path(dir, spec_annotated_path(dir, active)) == spec_annotated_path(
        dir,
        active,
    ));
}

} // verus!
