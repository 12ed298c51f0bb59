use vstd::prelude::*;
use vstd::string::{StrSliceExecFns, StringExecFns};
use crate::fs_facts::FileSystemError;
use crate::path_text::{
    chars_of, extension_of, has_char, join_path, parent_of, path_extension, path_join, path_parent,
    same_text,
};

verus! {

/// Why an action on the current image file failed.
#[derive(Debug, Clone, Copy, PartialEq, Eq, Structural)]
pub enum FileActionError {
    EmptyStem,
    HiddenTarget,
    PathSeparator,
    NoParentFolder,
    MissingExtension,
    TargetAlreadyExists,
    TrashDeletionFailed,
    FileSystem(FileSystemError),
}

/// The desktop trash refused a file.
#[derive(Debug, Clone, Copy, PartialEq, Eq, Structural)]
pub struct TrashDeleteError;

/// Moves files to a trash.
pub trait TrashDeleter {
    fn trash(&self, path: &str) -> Result<(), TrashDeleteError>;
}

/// A character with the Unicode `White_Space` property, which is what
/// `char::is_whitespace`, and so `str::trim`, looks for.
pub open spec fn is_white_space(c: char) -> bool {
    ||| '\u{9}' <= c && c <= '\u{d}'
    ||| c == ' '
    ||| c == '\u{85}'
    ||| c == '\u{a0}'
    ||| c == '\u{1680}'
    ||| '\u{2000}' <= c && c <= '\u{200a}'
    ||| c == '\u{2028}'
    ||| c == '\u{2029}'
    ||| c == '\u{202f}'
    ||| c == '\u{205f}'
    ||| c == '\u{3000}'
}

fn white_space(c: char) -> (space: bool)
    ensures
        space == is_white_space(c),
{
    ('\u{9}' <= c && c <= '\u{d}') || c == ' ' || c == '\u{85}' || c == '\u{a0}' || c == '\u{1680}'
        || ('\u{2000}' <= c && c <= '\u{200a}') || c == '\u{2028}' || c == '\u{2029}' || c
        == '\u{202f}' || c == '\u{205f}' || c == '\u{3000}'
}

/// The number of white-space characters at the start of `s`.
pub open spec fn leading_space(s: Seq<char>) -> int
    decreases s.len(),
{
    if s.len() > 0 && is_white_space(s[0]) {
        1 + leading_space(s.drop_first())
    } else {
        0
    }
}

/// The length of `s` without the white space at its end.
pub open spec fn end_without_trailing_space(s: Seq<char>) -> int
    decreases s.len(),
{
    if s.len() > 0 && is_white_space(s.last()) {
        end_without_trailing_space(s.drop_last())
    } else {
        s.len() as int
    }
}

/// `s` without white space at either end, as `str::trim` gives it.
pub open spec fn trimmed(s: Seq<char>) -> Seq<char> {
    if leading_space(s) >= end_without_trailing_space(s) {
        Seq::empty()
    } else {
        s.subrange(leading_space(s), end_without_trailing_space(s))
    }
}

proof fn lemma_leading_space_bounds(s: Seq<char>, k: int)
    requires
        0 <= k <= s.len(),
        forall|j: int| 0 <= j < k ==> is_white_space(#[trigger] s[j]),
    ensures
        leading_space(s) == k + leading_space(s.skip(k)),
        0 <= leading_space(s) <= s.len(),
    decreases k,
{
    if k == 0 {
        assert(s.skip(0) =~= s);
        lemma_leading_space_range(s);
    } else {
        assert(s.drop_first().skip(k - 1) =~= s.skip(k));
        lemma_leading_space_bounds(s.drop_first(), k - 1);
    }
}

proof fn lemma_leading_space_range(s: Seq<char>)
    ensures
        0 <= leading_space(s) <= s.len(),
    decreases s.len(),
{
    if s.len() > 0 {
        lemma_leading_space_range(s.drop_first());
    }
}

proof fn lemma_trailing_space_bounds(s: Seq<char>, k: int)
    requires
        0 <= k <= s.len(),
        forall|j: int| k <= j < s.len() ==> is_white_space(#[trigger] s[j]),
    ensures
        end_without_trailing_space(s) == end_without_trailing_space(s.take(k)),
    decreases s.len() - k,
{
    if k == s.len() {
        assert(s.take(k) =~= s);
    } else {
        assert(s.drop_last() =~= s.take(s.len() - 1));
        assert(s.take(s.len() - 1).take(k) =~= s.take(k));
        lemma_trailing_space_bounds(s.drop_last(), k);
    }
}

proof fn lemma_trailing_space_range(s: Seq<char>)
    ensures
        0 <= end_without_trailing_space(s) <= s.len(),
    decreases s.len(),
{
    if s.len() > 0 {
        lemma_trailing_space_range(s.drop_last());
    }
}

/// `s` without white space at either end.
pub fn trim(s: &str) -> (trimmed_text: &str)
    ensures
        trimmed_text@ == trimmed(s@),
{
    let chars: Vec<char> = chars_of(s);
    let mut start: usize = 0;
    while start < chars.len() && white_space(chars[start])
        invariant
            chars@ == s@,
            start <= chars.len(),
            forall|j: int| 0 <= j < start ==> is_white_space(#[trigger] s@[j]),
        decreases chars.len() - start,
    {
        start = start + 1;
    }
    proof {
        lemma_leading_space_bounds(s@, start as int);
        if start < chars.len() {
            assert(s@.skip(start as int)[0] == s@[start as int]);
        }
        assert(leading_space(s@) == start);
    }
    let mut end: usize = chars.len();
    while end > start && white_space(chars[end - 1])
        invariant
            chars@ == s@,
            start <= end <= chars.len(),
            forall|j: int| end <= j < s@.len() ==> is_white_space(#[trigger] s@[j]),
        decreases end,
    {
        end = end - 1;
    }
    proof {
        lemma_trailing_space_bounds(s@, end as int);
        lemma_trailing_space_range(s@.take(end as int));
        if end > start {
            assert(s@.take(end as int).last() == s@[end - 1]);
            assert(end_without_trailing_space(s@.take(end as int)) == end);
        } else {
            lemma_trailing_space_range(s@);
            if start < chars.len() {
                assert(!is_white_space(s@[start as int]));
                assert(end_without_trailing_space(s@.take(end as int)) <= end);
            }
        }
    }
    if start >= end {
        proof {
            reveal_strlit("");
            lemma_trailing_space_range(s@.take(end as int));
        }
        ""
    } else {
        s.substring_char(start, end)
    }
}

/// What a new stem must satisfy: see `validate_new_stem`.
pub open spec fn stem_check(new_stem: Seq<char>) -> Result<Seq<char>, FileActionError> {
    let stem = trimmed(new_stem);
    if stem.len() == 0 {
        Err(FileActionError::EmptyStem)
    } else if stem[0] == '.' {
        Err(FileActionError::HiddenTarget)
    } else if stem.contains('/') || stem.contains('\\') {
        Err(FileActionError::PathSeparator)
    } else {
        Ok(stem)
    }
}

/// The new stem without surrounding white space: it may not be empty, start
/// with a dot, or hold a path separator.
pub fn validate_new_stem(new_stem: &str) -> (stem: Result<&str, FileActionError>)
    ensures
        match stem {
            Ok(s) => stem_check(new_stem@) == Ok::<_, FileActionError>(s@),
            Err(e) => stem_check(new_stem@) == Err::<Seq<char>, _>(e),
        },
{
    let stem: &str = trim(new_stem);
    let chars: Vec<char> = chars_of(stem);
    if chars.len() == 0 {
        return Err(FileActionError::EmptyStem);
    }
    if chars[0] == '.' {
        return Err(FileActionError::HiddenTarget);
    }
    if has_char(&chars, '/') || has_char(&chars, '\\') {
        return Err(FileActionError::PathSeparator);
    }
    Ok(stem)
}

/// What renaming a file does on disk: nothing where the target is the file
/// itself, otherwise a move within its folder.
#[derive(Debug, Clone, PartialEq, Eq)]
pub enum RenamePlan {
    Keep(String),
    Move { from: String, to: String },
}

/// The rename of the file at `current` to `new_stem`, keeping its folder and
/// extension.
pub open spec fn rename_plan(current: Seq<char>, new_stem: Seq<char>) -> Result<
    (Seq<char>, Seq<char>),
    FileActionError,
> {
    match path_parent(current) {
        None => Err(FileActionError::NoParentFolder),
        Some(parent) => match path_extension(current) {
            None => Err(FileActionError::MissingExtension),
            Some(extension) => match stem_check(new_stem) {
                Err(e) => Err(e),
                Ok(stem) => Ok((current, path_join(parent, stem + "."@ + extension))),
            },
        },
    }
}

/// Plans the rename of the file at the canonical path `current` to the stem
/// `new_stem`: the target keeps the folder and the extension of the file.
pub fn plan_rename(current: &str, new_stem: &str) -> (plan: Result<RenamePlan, FileActionError>)
    ensures
        match rename_plan(current@, new_stem@) {
            Err(e) => plan == Err::<RenamePlan, _>(e),
            Ok((from, to)) => if to == from {
                plan matches Ok(RenamePlan::Keep(p)) && p@ == current@
            } else {
                plan matches Ok(RenamePlan::Move { from: f, to: t }) && f@ == from && t@ == to
            },
        },
{
    let parent: &str = match parent_of(current) {
        Some(parent) => parent,
        None => return Err(FileActionError::NoParentFolder),
    };
    let extension: &str = match extension_of(current) {
        Some(extension) => extension,
        None => return Err(FileActionError::MissingExtension),
    };
    let stem: &str = validate_new_stem(new_stem)?;
    let file_name: String = <String as StringExecFns>::from_str(stem);
    let file_name: String = file_name.concat(".");
    let file_name: String = file_name.concat(extension);
    let target: String = join_path(parent, file_name.as_str());
    if same_text(target.as_str(), current) {
        return Ok(RenamePlan::Keep(<String as StringExecFns>::from_str(current)));
    }
    Ok(RenamePlan::Move { from: <String as StringExecFns>::from_str(current), to: target })
}

/// Refuses a move onto a file that already exists.
pub fn refuse_existing_target(plan: RenamePlan, target_exists: bool) -> (checked: Result<
    RenamePlan,
    FileActionError,
>)
    ensures
        match plan {
            RenamePlan::Keep(_) => checked == Ok::<_, FileActionError>(plan),
            RenamePlan::Move { .. } => if target_exists {
                checked == Err::<RenamePlan, _>(FileActionError::TargetAlreadyExists)
            } else {
                checked == Ok::<_, FileActionError>(plan)
            },
        },
{
    match plan {
        RenamePlan::Keep(_) => Ok(plan),
        RenamePlan::Move { .. } => if target_exists {
            Err(FileActionError::TargetAlreadyExists)
        } else {
            Ok(plan)
        },
    }
}

/// What moving the current image to the trash comes to, given what the
/// deleter answered when handed the image's canonical path.
pub fn trash_outcome(answer: Result<(), TrashDeleteError>) -> (outcome: Result<(), FileActionError>)
    ensures
        outcome == match answer {
            Ok(()) => Ok::<(), FileActionError>(()),
            Err(_) => Err::<(), _>(FileActionError::TrashDeletionFailed),
        },
{
    match answer {
        Ok(()) => Ok(()),
        Err(_) => Err(FileActionError::TrashDeletionFailed),
    }
}

/// A new stem is judged on its trimmed text alone: empty text is refused,
/// text whose first character is a dot is refused as hidden, text holding a
/// path separator is refused, and any other text, dots after the first
/// character included, is taken as it is. The file is then renamed to that
/// stem, a dot and its old extension, in its old folder.
pub proof fn lemma_stem_rules(current: Seq<char>, new_stem: Seq<char>)
    ensures
        ({
            let t = trimmed(new_stem);
            &&& t.len() == 0 ==> stem_check(new_stem) == Err::<Seq<char>, _>(FileActionError::EmptyStem)
            &&& t.len() > 0 && t[0] == '.' ==> stem_check(new_stem) == Err::<Seq<char>, _>(
                FileActionError::HiddenTarget,
            )
            &&& t.len() > 0 && t[0] != '.' && (t.contains('/') || t.contains('\\'))
                ==> stem_check(new_stem) == Err::<Seq<char>, _>(FileActionError::PathSeparator)
            &&& t.len() > 0 && t[0] != '.' && !t.contains('/') && !t.contains('\\')
                ==> stem_check(new_stem) == Ok::<_, FileActionError>(t)
            &&& t.len() > 0 && t[0] != '.' && !t.contains('/') && !t.contains('\\') && path_parent(
                current,
            ) is Some && path_extension(current) is Some ==> rename_plan(current, new_stem)
                == Ok::<_, FileActionError>(
                (
                    current,
                    path_join(
                        path_parent(current)->Some_0,
                        t + "."@ + path_extension(current)->Some_0,
                    ),
                ),
            )
        }),
{
}

} // verus!
