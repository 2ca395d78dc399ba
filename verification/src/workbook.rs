//! Opening workbooks and reading their sheets.

use crate::compound::{chains_end, has_sound_chains};
use crate::parser::{sheet_view, sheets_view, Cell, CellView};
use crate::text::{same_text, str_of, texts};
use calamine::{open_workbook_from_rs, Data, Error, Reader, Sheets};
use std::io::Cursor;
use std::sync::mpsc::channel;
use tokio::runtime::Builder;
use vstd::prelude::*;

verus! {

/// Why a file whose chains of sectors are damaged cannot be read.
pub const DAMAGED_CHAINS: &'static str = "цепочки секторов файла повреждены";

/// Why a file of no known format cannot be read.
pub const NO_KNOWN_FORMAT: &'static str = "Cannot detect file format";

/// Why a workbook gives no sheets.
#[derive(Debug, Clone, PartialEq, Eq)]
pub enum ReadError<T> {
    /// The reading broke off.
    BrokenOff,
    /// The text says why.
    Unreadable(T),
}

impl View for ReadError<String> {
    type V = ReadError<Seq<char>>;

    open spec fn view(&self) -> ReadError<Seq<char>> {
        match *self {
            ReadError::BrokenOff => ReadError::BrokenOff,
            ReadError::Unreadable(reason) => ReadError::Unreadable(reason@),
        }
    }
}

/// `calamine::Sheets`: an open workbook of any format.
#[verifier::external_type_specification]
#[verifier::external_body]
#[verifier::reject_recursive_types(RS)]
pub struct ExSheets<RS>(calamine::Sheets<RS>);

/// `std::io::Cursor`: bytes in memory that are read like a file.
#[verifier::external_type_specification]
#[verifier::external_body]
#[verifier::reject_recursive_types(T)]
pub struct ExCursor<T>(std::io::Cursor<T>);

/// The names of the sheets of an open workbook, in order.
pub uninterp spec fn sheet_names_in(book: Sheets<Cursor<Vec<u8>>>) -> Seq<Seq<char>>;

/// What an open workbook has under each name: the rows of a sheet, or why they cannot be read;
/// `None` where the reading breaks off.
pub uninterp spec fn sheets_in(book: Sheets<Cursor<Vec<u8>>>) -> Map<
    Seq<char>,
    Option<Result<Seq<Seq<CellView>>, Seq<char>>>,
>;

/// What a workbook holds.
pub struct BookView {
    /// The names of the sheets, in order.
    pub names: Seq<Seq<char>>,
    /// Under each name the rows of the sheet, or why they cannot be read; `None` where the reading
    /// breaks off.
    pub sheets: Map<Seq<char>, Option<Result<Seq<Seq<CellView>>, Seq<char>>>>,
}

/// What an open workbook holds.
pub open spec fn book_view(book: Sheets<Cursor<Vec<u8>>>) -> BookView {
    BookView { names: sheet_names_in(book), sheets: sheets_in(book) }
}

/// What an open workbook holds, or why it could not be opened; `None` where the opening broke off.
pub open spec fn opened(book: Option<Result<Sheets<Cursor<Vec<u8>>>, String>>) -> Option<
    Result<BookView, Seq<char>>,
> {
    match book {
        None => None,
        Some(Ok(book)) => Some(Ok(book_view(book))),
        Some(Err(reason)) => Some(Err(reason@)),
    }
}

/// What bytes hold as an `.xls` workbook, or why they are none; `None` where the opening breaks
/// off.
pub uninterp spec fn xls_book(contents: Seq<u8>) -> Option<Result<BookView, Seq<char>>>;

/// What bytes hold as an `.xlsx` workbook, or why they are none; `None` where the opening breaks
/// off.
pub uninterp spec fn xlsx_book(contents: Seq<u8>) -> Option<Result<BookView, Seq<char>>>;

/// What bytes hold as an `.xlsb` workbook, or why they are none; `None` where the opening breaks
/// off.
pub uninterp spec fn xlsb_book(contents: Seq<u8>) -> Option<Result<BookView, Seq<char>>>;

/// `calamine::open_workbook_from_rs` for `Xls`, run as a blocking task of a `tokio` runtime of its
/// own, which has no drivers and so is always built: what the workbook holds, or the message of the
/// error, is a function of the bytes, named `xls_book`; it is `None` where the call panics, which
/// ends the task and drops the sender. Which bytes make a workbook, and which make the call panic,
/// is not said. That the machine has the memory that the bytes ask for, and a thread to spare, is
/// presumed. Where the chains of a compound file go in a circle the call would not return.
#[verifier::external_body]
fn open_xls(contents: Vec<u8>) -> (r: Option<Result<Sheets<Cursor<Vec<u8>>>, String>>)
    requires
        chains_end(contents@),
    ensures
        opened(r) == xls_book(contents@),
{
    let runtime = Builder::new_current_thread().build().unwrap();
    let (sender, receiver) = channel();
    runtime.spawn_blocking(move || sender.send(open_workbook_from_rs(Cursor::new(contents))));
    let book = receiver.recv().ok();
    runtime.shutdown_background();
    Some(book?.map(Sheets::Xls).map_err(|error| Error::Xls(error).to_string()))
}

/// `calamine::open_workbook_from_rs` for `Xlsx`, run as a blocking task of a `tokio` runtime of its
/// own, which has no drivers and so is always built: what the workbook holds, or the message of the
/// error, is a function of the bytes, named `xlsx_book`; it is `None` where the call panics, which
/// ends the task and drops the sender. Which bytes make a workbook, and which make the call panic,
/// is not said. That the machine has the memory that the bytes ask for, and a thread to spare, is
/// presumed. Where the chains of a compound file go in a circle the call would not return.
#[verifier::external_body]
fn open_xlsx(contents: Vec<u8>) -> (r: Option<Result<Sheets<Cursor<Vec<u8>>>, String>>)
    requires
        chains_end(contents@),
    ensures
        opened(r) == xlsx_book(contents@),
{
    let runtime = Builder::new_current_thread().build().unwrap();
    let (sender, receiver) = channel();
    runtime.spawn_blocking(move || sender.send(open_workbook_from_rs(Cursor::new(contents))));
    let book = receiver.recv().ok();
    runtime.shutdown_background();
    Some(book?.map(Sheets::Xlsx).map_err(|error| Error::Xlsx(error).to_string()))
}

/// `calamine::open_workbook_from_rs` for `Xlsb`, run as a blocking task of a `tokio` runtime of its
/// own, which has no drivers and so is always built: what the workbook holds, or the message of the
/// error, is a function of the bytes, named `xlsb_book`; it is `None` where the call panics, which
/// ends the task and drops the sender. Which bytes make a workbook, and which make the call panic,
/// is not said. That the machine has the memory that the bytes ask for, and a thread to spare, is
/// presumed. Where the chains of a compound file go in a circle the call would not return. The
/// formula of a defined name is read by a function that calls itself for a formula within it. An
/// inner formula has at most 65,535 bytes, and each level takes three of them, so there are fewer
/// than 22,000 levels, for each of which the stack of the task leaves 48 kilobytes.
#[verifier::external_body]
fn open_xlsb(contents: Vec<u8>) -> (r: Option<Result<Sheets<Cursor<Vec<u8>>>, String>>)
    requires
        chains_end(contents@),
    ensures
        opened(r) == xlsb_book(contents@),
{
    let runtime = Builder::new_current_thread().thread_stack_size(1_073_741_824).build().unwrap();
    let (sender, receiver) = channel();
    runtime.spawn_blocking(move || sender.send(open_workbook_from_rs(Cursor::new(contents))));
    let book = receiver.recv().ok();
    runtime.shutdown_background();
    Some(book?.map(Sheets::Xlsb).map_err(|error| Error::Xlsb(error).to_string()))
}

/// `calamine::Reader::sheet_names`: the names of the sheets, in order.
#[verifier::external_body]
fn sheet_names(book: &Sheets<Cursor<Vec<u8>>>) -> (r: Vec<String>)
    ensures
        texts(r@) == sheet_names_in(*book),
{
    book.sheet_names()
}

/// The contents of a sheet that may not be readable.
pub open spec fn read_view(sheet: Result<Vec<Vec<Cell>>, String>) -> Result<
    Seq<Seq<CellView>>,
    Seq<char>,
> {
    match sheet {
        Ok(rows) => Ok(sheet_view(rows@)),
        Err(reason) => Err(reason@),
    }
}

/// `calamine::Reader::worksheet_range`, run as a blocking task of a `tokio` runtime of its own,
/// which has no drivers and so is always built: the rows of the sheet with a name, or the message
/// of the error, with the workbook, which keeps what it holds; `None` where the call panics, which
/// ends the task and drops the sender. An empty cell and a text are kept as such, another value by
/// its `Display` form. Which sheets make the call panic is not said. That the machine has the
/// memory that the sheet asks for, and a thread to spare, is presumed.
#[verifier::external_body]
fn worksheet(book: Sheets<Cursor<Vec<u8>>>, name: String) -> (r: Option<
    (Sheets<Cursor<Vec<u8>>>, Result<Vec<Vec<Cell>>, String>),
>)
    ensures
        match r {
            None => sheets_in(book)[name@] is None,
            Some((after, sheet)) => sheets_in(book)[name@] == Some(read_view(sheet)) && sheets_in(
                after,
            ) == sheets_in(book) && sheet_names_in(after) == sheet_names_in(book),
        },
{
    let runtime = Builder::new_current_thread().build().unwrap();
    let (sender, receiver) = channel();
    let mut book = book;
    runtime.spawn_blocking(move || sender.send((book.worksheet_range(&name), book)));
    let read = receiver.recv().ok();
    runtime.shutdown_background();
    let (range, book) = read?;
    let cells = |row: &[Data]| row.iter().map(|cell| match cell {
        Data::Empty => Cell::Empty,
        Data::String(text) => Cell::Text(text.clone()),
        value => Cell::Value(value.to_string()),
    }).collect();
    Some((book, range.map(|range| range.rows().map(cells).collect()).map_err(|e| e.to_string())))
}

/// How a workbook is written.
#[derive(Debug, Clone, Copy, PartialEq, Eq, Structural)]
pub enum Format {
    Xls,
    Xlsx,
    Xlsb,
    /// To be found out.
    Unknown,
}

/// The format that the extension of a file promises.
pub open spec fn promised_format(extension: Option<Seq<char>>) -> Format {
    match extension {
        None => Format::Unknown,
        Some(name) => if name == "xls"@ || name == "xla"@ {
            Format::Xls
        } else if name == "xlsx"@ || name == "xlsm"@ || name == "xlam"@ {
            Format::Xlsx
        } else if name == "xlsb"@ {
            Format::Xlsb
        } else {
            Format::Unknown
        },
    }
}

/// The format that the extension of a file promises.
pub fn workbook_format(extension: Option<&str>) -> (r: Format)
    ensures
        r == promised_format(str_of(extension)),
{
    match extension {
        None => Format::Unknown,
        Some(name) => {
            if same_text(name, "xls") || same_text(name, "xla") {
                Format::Xls
            } else if same_text(name, "xlsx") || same_text(name, "xlsm") || same_text(name, "xlam") {
                Format::Xlsx
            } else if same_text(name, "xlsb") {
                Format::Xlsb
            } else {
                Format::Unknown
            }
        },
    }
}

/// What bytes hold as a workbook of the first format that they fit.
pub open spec fn any_book(contents: Seq<u8>) -> Option<Result<BookView, Seq<char>>> {
    match xls_book(contents) {
        Some(Err(_)) => match xlsx_book(contents) {
            Some(Err(_)) => match xlsb_book(contents) {
                Some(Err(_)) => Some(Err(NO_KNOWN_FORMAT@)),
                book => book,
            },
            book => book,
        },
        book => book,
    }
}

/// What bytes hold as a workbook of a format, or why they are none; `None` where the opening breaks
/// off.
pub open spec fn book_of(format: Format, contents: Seq<u8>) -> Option<
    Result<BookView, Seq<char>>,
> {
    if !chains_end(contents) {
        Some(Err(DAMAGED_CHAINS@))
    } else {
        match format {
            Format::Xls => xls_book(contents),
            Format::Xlsx => xlsx_book(contents),
            Format::Xlsb => xlsb_book(contents),
            Format::Unknown => any_book(contents),
        }
    }
}

fn open_first_fit(contents: Vec<u8>) -> (r: Option<Result<Sheets<Cursor<Vec<u8>>>, String>>)
    requires
        chains_end(contents@),
    ensures
        opened(r) == any_book(contents@),
{
    let for_xls = contents.clone();
    assert(for_xls@ =~= contents@);
    match open_xls(for_xls) {
        Some(Err(_)) => {},
        book => return book,
    }
    let for_xlsx = contents.clone();
    assert(for_xlsx@ =~= contents@);
    match open_xlsx(for_xlsx) {
        Some(Err(_)) => {},
        book => return book,
    }
    match open_xlsb(contents) {
        Some(Err(_)) => Some(Err(NO_KNOWN_FORMAT.to_owned())),
        book => book,
    }
}

fn open(format: Format, contents: Vec<u8>) -> (r: Option<Result<Sheets<Cursor<Vec<u8>>>, String>>)
    ensures
        opened(r) == book_of(format, contents@),
{
    if !has_sound_chains(&contents) {
        return Some(Err(DAMAGED_CHAINS.to_owned()));
    }
    match format {
        Format::Xls => open_xls(contents),
        Format::Xlsx => open_xlsx(contents),
        Format::Xlsb => open_xlsb(contents),
        Format::Unknown => open_first_fit(contents),
    }
}

/// The rows of the first `count` sheets, in order, or why the first of them that cannot be read
/// cannot be read.
pub open spec fn first_sheets(book: BookView, count: int) -> Result<
    Seq<Seq<Seq<CellView>>>,
    ReadError<Seq<char>>,
>
    decreases count,
{
    if count <= 0 {
        Ok(seq![])
    } else {
        match first_sheets(book, count - 1) {
            Err(error) => Err(error),
            Ok(before) => match book.sheets[book.names[count - 1]] {
                None => Err(ReadError::BrokenOff),
                Some(Err(reason)) => Err(ReadError::Unreadable(reason)),
                Some(Ok(rows)) => Ok(before.push(rows)),
            },
        }
    }
}

/// The rows of all sheets, in order, or why the workbook cannot be read.
pub open spec fn all_sheets(book: Option<Result<BookView, Seq<char>>>) -> Result<
    Seq<Seq<Seq<CellView>>>,
    ReadError<Seq<char>>,
> {
    match book {
        None => Err(ReadError::BrokenOff),
        Some(Err(reason)) => Err(ReadError::Unreadable(reason)),
        Some(Ok(book)) => first_sheets(book, book.names.len() as int),
    }
}

/// The contents of what was read from a workbook.
pub open spec fn workbook_view(workbook: Result<Vec<Vec<Vec<Cell>>>, ReadError<String>>) -> Result<
    Seq<Seq<Seq<CellView>>>,
    ReadError<Seq<char>>,
> {
    match workbook {
        Ok(sheets) => Ok(sheets_view(sheets@)),
        Err(error) => Err(error@),
    }
}

proof fn lemma_first_failure(book: BookView, count: int, n: int)
    requires
        0 <= count <= n,
        first_sheets(book, count) is Err,
    ensures
        first_sheets(book, n) == first_sheets(book, count),
    decreases n,
{
    if count < n {
        lemma_first_failure(book, count, n - 1);
    }
}

/// The rows of all sheets, in order, or why the workbook cannot be read.
pub fn read_workbook(format: Format, contents: Vec<u8>) -> (r: Result<
    Vec<Vec<Vec<Cell>>>,
    ReadError<String>,
>)
    ensures
        workbook_view(r) == all_sheets(book_of(format, contents@)),
{
    let mut book = match open(format, contents) {
        None => return Err(ReadError::BrokenOff),
        Some(Err(reason)) => return Err(ReadError::Unreadable(reason)),
        Some(Ok(book)) => book,
    };
    let ghost view = book_view(book);
    let names = sheet_names(&book);
    assert(names@.len() == view.names.len());
    let mut sheets: Vec<Vec<Vec<Cell>>> = Vec::new();
    let mut i: usize = 0;
    assert(sheets_view(sheets@) =~= seq![]);
    while i < names.len()
        invariant
            i <= names@.len(),
            book_of(format, contents@) == Some(Ok::<_, Seq<char>>(view)),
            texts(names@) == view.names,
            names@.len() == view.names.len(),
            book_view(book) == view,
            first_sheets(view, i as int) == Ok::<_, ReadError<Seq<char>>>(sheets_view(sheets@)),
        decreases names@.len() - i,
    {
        assert(view.names[i as int] == names@[i as int]@);
        let (after, sheet) = match worksheet(book, names[i].clone()) {
            Some(read) => read,
            None => {
                proof {
                    lemma_first_failure(view, i + 1, view.names.len() as int);
                }
                return Err(ReadError::BrokenOff);
            },
        };
        book = after;
        match sheet {
            Err(reason) => {
                proof {
                    lemma_first_failure(view, i + 1, view.names.len() as int);
                }
                return Err(ReadError::Unreadable(reason));
            },
            Ok(rows) => {
                let ghost before = sheets@;
                sheets.push(rows);
                assert(sheets_view(sheets@) =~= sheets_view(before).push(sheet_view(rows@)));
            },
        }
        i += 1;
    }
    Ok(sheets)
}

} // verus!
