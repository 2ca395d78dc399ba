//! Names of spreadsheet files.

use crate::identity::{id_form, id_text};
use crate::text::{
    ascii_lowered, concat3, same_text, slice_text, split, split_on, text_of, texts,
    to_ascii_lowercase, to_chars,
};
use vstd::prelude::*;

verus! {

/// How many bytes an uploaded file has at most.
pub const FILE_LIMIT: u64 = 15_728_640;

/// The last part of a path that names something, as far as `parts` goes.
pub open spec fn last_part(parts: Seq<Seq<char>>) -> Option<Seq<char>>
    decreases parts.len(),
{
    if parts.len() == 0 {
        None
    } else if parts.last() == ""@ || parts.last() == "."@ {
        last_part(parts.drop_last())
    } else if parts.last() == ".."@ {
        None
    } else {
        Some(parts.last())
    }
}

/// The name of the file that a path leads to.
pub open spec fn file_name(path: Seq<char>) -> Option<Seq<char>> {
    last_part(split_on(path, '/'))
}

/// The position of the last `c`, or -1.
pub open spec fn find_last(s: Seq<char>, c: char) -> int
    decreases s.len(),
{
    if s.len() == 0 {
        -1
    } else if s.last() == c {
        s.len() - 1
    } else {
        find_last(s.drop_last(), c)
    }
}

/// The extension of a path's file name: what follows its last dot, where something stands before
/// that dot.
pub open spec fn extension(path: Seq<char>) -> Option<Seq<char>> {
    match file_name(path) {
        None => None,
        Some(name) => {
            let dot = find_last(name, '.');
            if dot <= 0 {
                None
            } else {
                Some(name.skip(dot + 1))
            }
        },
    }
}

fn last_name(parts: &Vec<String>) -> (r: Option<usize>)
    ensures
        match r {
            Some(i) => i < parts@.len() && last_part(texts(parts@)) == Some(parts@[i as int]@),
            None => last_part(texts(parts@)) is None,
        },
{
    let ghost all = texts(parts@);
    let mut end: usize = parts.len();
    assert(all.take(end as int) =~= all);
    while end > 0
        invariant
            end <= parts@.len(),
            all == texts(parts@),
            last_part(all) == last_part(all.take(end as int)),
        decreases end,
    {
        let part = parts[end - 1].as_str();
        assert(all.take(end as int).last() == part@);
        assert(all.take(end as int).drop_last() =~= all.take(end - 1));
        if !same_text(part, "") && !same_text(part, ".") {
            if same_text(part, "..") {
                return None;
            }
            return Some(end - 1);
        }
        end = end - 1;
    }
    None
}

fn rfind(chars: &Vec<char>, c: char) -> (r: Option<usize>)
    ensures
        match r {
            Some(i) => i == find_last(chars@, c) && i < chars@.len(),
            None => find_last(chars@, c) == -1,
        },
{
    let mut end: usize = chars.len();
    assert(chars@.take(end as int) =~= chars@);
    while end > 0
        invariant
            end <= chars@.len(),
            find_last(chars@, c) == find_last(chars@.take(end as int), c),
        decreases end,
    {
        assert(chars@.take(end as int).drop_last() =~= chars@.take(end - 1));
        if chars[end - 1] == c {
            return Some(end - 1);
        }
        end = end - 1;
    }
    None
}

/// The extension of a path's file name.
pub fn file_extension(path: &str) -> (r: Option<String>)
    ensures
        text_of(r) == extension(path@),
{
    let parts = split(path, '/');
    match last_name(&parts) {
        None => None,
        Some(i) => {
            let chars = to_chars(parts[i].as_str());
            match rfind(&chars, '.') {
                None => None,
                Some(dot) => {
                    if dot == 0 {
                        None
                    } else {
                        let r = slice_text(&chars, dot + 1, chars.len());
                        assert(r@ =~= chars@.skip(dot + 1));
                        Some(r)
                    }
                },
            }
        },
    }
}

/// Whether files with this lower-case extension can be uploaded.
pub open spec fn is_spreadsheet(lower: Seq<char>) -> bool {
    lower == "xls"@ || lower == "xlsx"@ || lower == "xlsb"@
}

/// Whether files with this lower-case extension can be uploaded.
pub fn accepts_extension(lower: &str) -> (r: bool)
    ensures
        r == is_spreadsheet(lower@),
{
    same_text(lower, "xls") || same_text(lower, "xlsx") || same_text(lower, "xlsb")
}

/// The key that an upload's file is archived under.
pub open spec fn archive_key(id: u128, extension: Seq<char>) -> Seq<char> {
    "schedule-sources/"@ + id_form(id) + "."@ + extension
}

/// The key that an upload's file is archived under.
pub fn source_key(id: u128, extension: &str) -> (r: String)
    ensures
        r@ == archive_key(id, extension@),
{
    let name = id_text(id);
    let mut r = concat3("schedule-sources/", name.as_str(), ".");
    r.append(extension);
    r
}

/// Whether a path leads to a timetable that can be found by default.
pub open spec fn is_default_table(path: Seq<char>) -> bool {
    match extension(path) {
        Some(ext) => ascii_lowered(ext) == "xls"@ || ascii_lowered(ext) == "xlsx"@,
        None => false,
    }
}

/// Whether a path leads to a timetable that can be found by default.
pub fn default_table(path: &str) -> (r: bool)
    ensures
        r == is_default_table(path@),
{
    match file_extension(path) {
        Some(ext) => {
            let lower = to_ascii_lowercase(ext.as_str());
            same_text(lower.as_str(), "xls") || same_text(lower.as_str(), "xlsx")
        },
        None => false,
    }
}

/// Why no timetable is found by default.
#[derive(Debug, Clone, Copy, PartialEq, Eq, Structural)]
pub enum DefaultTableError {
    NoneFound,
    SeveralFound,
}

impl DefaultTableError {
    /// The message that the error is shown with.
    pub open spec fn text(self) -> Seq<char> {
        match self {
            DefaultTableError::NoneFound =>
                "в папке tables не найдено файлов .xls/.xlsx; передайте путь через --input"@,
            DefaultTableError::SeveralFound =>
                "в папке tables несколько расписаний; укажите нужное через --input"@,
        }
    }

    /// The message that the error is shown with.
    pub fn message(self) -> (r: &'static str)
        ensures
            r@ == self.text(),
    {
        match self {
            DefaultTableError::NoneFound =>
                "в папке tables не найдено файлов .xls/.xlsx; передайте путь через --input",
            DefaultTableError::SeveralFound =>
                "в папке tables несколько расписаний; укажите нужное через --input",
        }
    }
}

/// How many of the first `n` paths lead to a timetable.
pub open spec fn tables_among(paths: Seq<String>, n: int) -> nat
    decreases n,
{
    if n <= 0 {
        0
    } else {
        tables_among(paths, n - 1) + if is_default_table(paths[n - 1]@) {
            1nat
        } else {
            0
        }
    }
}

/// The one timetable among the files of a folder: its place in the list.
pub fn find_default_schedule(paths: &Vec<String>) -> (r: Result<usize, DefaultTableError>)
    ensures
        match r {
            Ok(i) => {
                &&& i < paths@.len()
                &&& is_default_table(paths@[i as int]@)
                &&& forall|j: int|
                    0 <= j < paths@.len() && j != i ==> !is_default_table(#[trigger] paths@[j]@)
            },
            Err(DefaultTableError::NoneFound) => tables_among(paths@, paths@.len() as int) == 0,
            Err(DefaultTableError::SeveralFound) => tables_among(paths@, paths@.len() as int) > 1,
        },
        r is Ok <==> tables_among(paths@, paths@.len() as int) == 1,
{
    let mut found: Option<usize> = None;
    let mut several = false;
    let mut i: usize = 0;
    while i < paths.len()
        invariant
            i <= paths@.len(),
            several == (tables_among(paths@, i as int) > 1),
            found is None <==> tables_among(paths@, i as int) == 0,
            found matches Some(k) ==> k < i && is_default_table(paths@[k as int]@) && (!several
                ==> forall|j: int|
                0 <= j < i && j != k ==> !is_default_table(#[trigger] paths@[j]@)),
            found is None ==> forall|j: int|
                0 <= j < i ==> !is_default_table(#[trigger] paths@[j]@),
        decreases paths@.len() - i,
    {
        if default_table(paths[i].as_str()) {
            if found.is_some() {
                several = true;
            } else {
                found = Some(i);
            }
        }
        i += 1;
    }
    match found {
        None => Err(DefaultTableError::NoneFound),
        Some(k) => {
            if several {
                Err(DefaultTableError::SeveralFound)
            } else {
                Ok(k)
            }
        },
    }
}

} // verus!
