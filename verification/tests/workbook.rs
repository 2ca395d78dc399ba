use schedule::compound::has_sound_chains;
use schedule::date::Date;
use schedule::domain::validate_schedule;
use schedule::lesson::Lesson;
use schedule::parser::{for_date, for_group, for_room, parse_file, Cell, ParseError};
use schedule::workbook::{read_workbook, workbook_format, Format, ReadError, DAMAGED_CHAINS};

fn crc32(bytes: &[u8]) -> u32 {
    let mut crc: u32 = 0xffff_ffff;
    for byte in bytes {
        crc ^= *byte as u32;
        for _ in 0..8 {
            crc = if crc & 1 == 1 { (crc >> 1) ^ 0xedb8_8320 } else { crc >> 1 };
        }
    }
    !crc
}

/// An archive of uncompressed files.
fn zip<T: AsRef<[u8]>>(files: &[(&str, T)]) -> Vec<u8> {
    let mut out: Vec<u8> = Vec::new();
    let mut directory: Vec<u8> = Vec::new();
    for (name, contents) in files {
        let contents: &[u8] = contents.as_ref();
        let offset = out.len() as u32;
        let mut fields: Vec<u8> = Vec::new();
        fields.extend_from_slice(&20u16.to_le_bytes());
        fields.extend_from_slice(&[0; 8]);
        fields.extend_from_slice(&crc32(contents).to_le_bytes());
        fields.extend_from_slice(&(contents.len() as u32).to_le_bytes());
        fields.extend_from_slice(&(contents.len() as u32).to_le_bytes());
        fields.extend_from_slice(&(name.len() as u16).to_le_bytes());
        fields.extend_from_slice(&[0; 2]);
        out.extend_from_slice(b"PK\x03\x04");
        out.extend_from_slice(&fields);
        out.extend_from_slice(name.as_bytes());
        out.extend_from_slice(contents);
        directory.extend_from_slice(b"PK\x01\x02");
        directory.extend_from_slice(&20u16.to_le_bytes());
        directory.extend_from_slice(&fields);
        directory.extend_from_slice(&[0; 10]);
        directory.extend_from_slice(&offset.to_le_bytes());
        directory.extend_from_slice(name.as_bytes());
    }
    let start = out.len() as u32;
    out.extend_from_slice(&directory);
    out.extend_from_slice(b"PK\x05\x06");
    out.extend_from_slice(&[0; 4]);
    out.extend_from_slice(&(files.len() as u16).to_le_bytes());
    out.extend_from_slice(&(files.len() as u16).to_le_bytes());
    out.extend_from_slice(&(directory.len() as u32).to_le_bytes());
    out.extend_from_slice(&start.to_le_bytes());
    out.extend_from_slice(&[0; 2]);
    out
}

fn cell(row: usize, column: usize, value: &str) -> String {
    let place = format!("{}{}", (b'A' + column as u8) as char, row + 1);
    if value.is_empty() {
        String::new()
    } else if value.chars().all(|c| c.is_ascii_digit()) {
        format!("<c r=\"{place}\"><v>{value}</v></c>")
    } else {
        format!("<c r=\"{place}\" t=\"inlineStr\"><is><t>{value}</t></is></c>")
    }
}

fn workbook(sheets: &[(&str, Vec<Vec<&str>>)]) -> Vec<u8> {
    let mut files = Vec::new();
    let mut list = String::new();
    let mut links = String::new();
    for (index, (name, rows)) in sheets.iter().enumerate() {
        let number = index + 1;
        list.push_str(&format!("<sheet name=\"{name}\" sheetId=\"{number}\" r:id=\"rId{number}\"/>"));
        links.push_str(&format!(
            "<Relationship Id=\"rId{number}\" Type=\"http://schemas.openxmlformats.org/officeDocument/2006/relationships/worksheet\" Target=\"worksheets/sheet{number}.xml\"/>"
        ));
        let mut data = String::new();
        for (row, cells) in rows.iter().enumerate() {
            let cells: String = cells
                .iter()
                .enumerate()
                .map(|(column, value)| cell(row, column, value))
                .collect();
            data.push_str(&format!("<row r=\"{}\">{cells}</row>", row + 1));
        }
        files.push((
            format!("xl/worksheets/sheet{number}.xml"),
            format!(
                "<?xml version=\"1.0\" encoding=\"UTF-8\"?><worksheet xmlns=\"http://schemas.openxmlformats.org/spreadsheetml/2006/main\"><sheetData>{data}</sheetData></worksheet>"
            ),
        ));
    }
    let mut all = vec![
        (
            "[Content_Types].xml",
            "<?xml version=\"1.0\" encoding=\"UTF-8\"?><Types xmlns=\"http://schemas.openxmlformats.org/package/2006/content-types\"></Types>".to_owned(),
        ),
        (
            "_rels/.rels",
            "<?xml version=\"1.0\" encoding=\"UTF-8\"?><Relationships xmlns=\"http://schemas.openxmlformats.org/package/2006/relationships\"><Relationship Id=\"rId1\" Type=\"http://schemas.openxmlformats.org/officeDocument/2006/relationships/officeDocument\" Target=\"xl/workbook.xml\"/></Relationships>".to_owned(),
        ),
        (
            "xl/workbook.xml",
            format!(
                "<?xml version=\"1.0\" encoding=\"UTF-8\"?><workbook xmlns=\"http://schemas.openxmlformats.org/spreadsheetml/2006/main\" xmlns:r=\"http://schemas.openxmlformats.org/officeDocument/2006/relationships\"><sheets>{list}</sheets></workbook>"
            ),
        ),
        (
            "xl/_rels/workbook.xml.rels",
            format!(
                "<?xml version=\"1.0\" encoding=\"UTF-8\"?><Relationships xmlns=\"http://schemas.openxmlformats.org/package/2006/relationships\">{links}</Relationships>"
            ),
        ),
    ];
    for (name, contents) in &files {
        all.push((name.as_str(), contents.clone()));
    }
    zip(&all)
}

fn sample() -> Vec<u8> {
    workbook(&[
        ("Титул", vec![vec!["Расписание 5 учебной недели"]]),
        (
            "ОФО",
            vec![
                vec!["День", "Дата", "Пара", "Время", "ИС11В", "", "ИС31В", "", "ОЗМ21В/ОЗЭ21В"],
                vec!["", "", "", "", "Дисциплина", "Ауд.", "Дисциплина", "Ауд.", "Дисциплина", "Ауд."],
                vec![
                    "Понедельник",
                    "28.09.2026",
                    "5",
                    "15.40-17.15",
                    "Основы инклюзивной культуры и дефектологических знаний (пр.+пр.) доц. Усова И.В.",
                    "303/2",
                ],
                vec!["", "", "6", "17.25-19.00", "", "303/2"],
                vec!["Вторник", "29.09.2026", "1", "08.20-09.55", "", "", "Физическая культура (пр.)", "Зал"],
                vec!["", "", "2", "10.05-11.40", "Иностранный язык (пр.) Смирнова А.А.", "303/2"],
                vec!["Четверг", "01.10.2026", "2", "10.05-11.40", "", "", "Исследование операций (лек.)", "214"],
                vec!["", "", "3", "12.10-13.45", "", "", "", "214", "Экономика (лек.)", "ДОТ"],
            ],
        ),
    ])
}

fn lessons() -> Vec<Lesson> {
    parse_file(sample(), Some("xlsx")).expect("the workbook should parse")
}

#[test]
fn reads_groups_and_keeps_consecutive_pairs_separate() {
    let lessons = lessons();
    assert!(!lessons.is_empty());

    let group_lessons = for_group(&lessons, "ИС11В");
    assert!(!group_lessons.is_empty());
    let first_period = group_lessons
        .iter()
        .find(|lesson| {
            lesson.date == Date::from_ymd_opt(2026, 9, 28).unwrap()
                && lesson.subject == "Основы инклюзивной культуры и дефектологических знаний"
                && lesson.lesson_number == 5
        })
        .expect("first Monday pair should be present");
    assert_eq!(first_period.start_time, "15:40");
    assert_eq!(first_period.end_time, "17:15");
    assert_eq!(first_period.room.as_deref(), Some("303/2"));
    assert_eq!(first_period.lesson_type.as_deref(), Some("пр.+пр."));
    assert!(first_period
        .teacher
        .as_deref()
        .unwrap()
        .contains("Усова И.В."));
    let second_period = group_lessons
        .iter()
        .find(|lesson| {
            lesson.date == Date::from_ymd_opt(2026, 9, 28).unwrap()
                && lesson.subject == first_period.subject
                && lesson.lesson_number == 6
        })
        .expect("second Monday pair should not be merged with the first");
    assert_eq!(second_period.start_time, "17:25");
    assert_eq!(second_period.end_time, "19:00");

    let same_subject_periods: Vec<_> = for_group(&lessons, "ИС31В")
        .into_iter()
        .filter(|lesson| {
            lesson.date == Date::from_ymd_opt(2026, 10, 1).unwrap()
                && lesson.subject == "Исследование операций"
        })
        .collect();
    assert_eq!(same_subject_periods.len(), 2);
    assert_eq!(same_subject_periods[0].lesson_number, 2);
    assert_eq!(same_subject_periods[0].end_time, "11:40");
    assert_eq!(same_subject_periods[1].lesson_number, 3);
    assert_eq!(same_subject_periods[1].start_time, "12:10");
    assert_eq!(same_subject_periods[1].end_time, "13:45");
}

#[test]
fn supports_room_and_day_queries() {
    let lessons = lessons();
    assert!(for_room(&lessons, "303/2")
        .iter()
        .any(|lesson| lesson.subject.contains("Иностранный язык")));
    assert!(
        for_date(&lessons, Date::from_ymd_opt(2026, 9, 29).unwrap())
            .iter()
            .any(|lesson| lesson.subject.contains("Физическая культура"))
    );
}

#[test]
fn preserves_joint_group_headers_as_individual_groups() {
    let lessons = lessons();
    assert!(lessons
        .iter()
        .any(|lesson| lesson.groups.iter().any(|group| group == "ОЗЭ21В")));
}

#[test]
fn parser_output_passes_bot_publication_validation() {
    let (start, end) = validate_schedule(&lessons()).unwrap();
    assert_eq!(start, Date::from_ymd_opt(2026, 9, 28).unwrap());
    assert_eq!(end, Date::from_ymd_opt(2026, 10, 4).unwrap());
}

#[test]
fn bytes_of_no_workbook_are_refused() {
    let nothing = b"PK nothing of the kind".to_vec();
    let error = parse_file(nothing.clone(), None).unwrap_err();
    assert_eq!(
        error,
        ParseError::Workbook("Cannot detect file format".to_owned())
    );
    for (extension, name) in [("xls", "Xls"), ("xlsx", "Xlsx"), ("xlsb", "Xlsb")] {
        match parse_file(nothing.clone(), Some(extension)) {
            Err(ParseError::Workbook(reason)) => {
                assert!(reason.starts_with(&format!("{name} error: ")), "{reason}")
            }
            other => panic!("{other:?}"),
        }
    }
    let empty = workbook(&[("Лист", vec![vec!["День"]])]);
    assert_eq!(
        parse_file(empty, Some("xlsx")),
        Err(ParseError::NoScheduleSheets)
    );
}

#[test]
fn formats_follow_extensions() {
    assert_eq!(workbook_format(Some("xls")), Format::Xls);
    assert_eq!(workbook_format(Some("xla")), Format::Xls);
    assert_eq!(workbook_format(Some("xlsm")), Format::Xlsx);
    assert_eq!(workbook_format(Some("xlam")), Format::Xlsx);
    assert_eq!(workbook_format(Some("xlsb")), Format::Xlsb);
    assert_eq!(workbook_format(Some("ods")), Format::Unknown);
    assert_eq!(workbook_format(Some("XLSX")), Format::Unknown);
    assert_eq!(workbook_format(None), Format::Unknown);
    assert_eq!(
        parse_file(sample(), Some("XLSX")),
        parse_file(sample(), Some("xlsx"))
    );
    assert!(parse_file(sample(), Some("xls")).is_err());
}

#[test]
fn sheets_come_in_the_order_of_the_workbook() {
    let sheets = read_workbook(
        Format::Xlsx,
        workbook(&[
            ("Б", vec![vec!["первый"], vec!["1", "два"]]),
            ("А", vec![vec!["второй"]]),
        ]),
    )
    .unwrap();
    assert_eq!(
        sheets,
        [
            vec![
                vec![Cell::Text("первый".to_owned()), Cell::Empty],
                vec![Cell::Value("1".to_owned()), Cell::Text("два".to_owned())]
            ],
            vec![vec![Cell::Text("второй".to_owned())]],
        ]
    );
}

const END_OF_CHAIN: u32 = 0xffff_fffe;
const NO_SECTOR: u32 = 0xffff_ffff;

fn put(bytes: &mut [u8], at: usize, value: &[u8]) {
    bytes[at..at + value.len()].copy_from_slice(value);
}

fn wide(text: &str) -> Vec<u8> {
    text.encode_utf16().flat_map(|unit| unit.to_le_bytes()).collect()
}

/// A compound file with small sectors. The header lists one sector of the allocation table.
fn compound(table: u32, list: u32, directory: u32, sectors: &[Vec<u8>]) -> Vec<u8> {
    let mut out = vec![0; 512];
    put(&mut out, 0, b"\xD0\xCF\x11\xE0\xA1\xB1\x1A\xE1");
    put(&mut out, 26, &3u16.to_le_bytes());
    put(&mut out, 30, &9u16.to_le_bytes());
    put(&mut out, 32, &6u16.to_le_bytes());
    put(&mut out, 44, &1u32.to_le_bytes());
    put(&mut out, 48, &directory.to_le_bytes());
    put(&mut out, 60, &END_OF_CHAIN.to_le_bytes());
    put(&mut out, 68, &list.to_le_bytes());
    put(&mut out, 76, &table.to_le_bytes());
    for place in 1..109 {
        put(&mut out, 76 + 4 * place, &NO_SECTOR.to_le_bytes());
    }
    for sector in sectors {
        out.extend_from_slice(sector);
    }
    out
}

/// A sector of numbers; those that are not given stand for no sector.
fn numbers(given: &[(usize, u32)]) -> Vec<u8> {
    let mut out = vec![0xff; 512];
    for (place, number) in given {
        put(&mut out, 4 * place, &number.to_le_bytes());
    }
    out
}

/// Sector 0 holds the allocation table and sector 1 the directory, whose chain goes on with
/// `after_directory`; the stream `Workbook` follows.
fn compound_workbook(stream: &[u8], after_directory: u32) -> Vec<u8> {
    let mut stream = stream.to_vec();
    stream.resize(4096, 0);
    let mut table = vec![(0, 0xffff_fffd), (1, after_directory)];
    for sector in 2..10 {
        table.push((sector, if sector < 9 { sector as u32 + 1 } else { END_OF_CHAIN }));
    }
    let mut directory = vec![0; 512];
    put(&mut directory, 0, &wide("Root Entry"));
    put(&mut directory, 116, &END_OF_CHAIN.to_le_bytes());
    put(&mut directory, 128, &wide("Workbook"));
    put(&mut directory, 128 + 116, &2u32.to_le_bytes());
    put(&mut directory, 128 + 120, &4096u32.to_le_bytes());
    let mut sectors = vec![numbers(&table), directory];
    sectors.extend(stream.chunks(512).map(|sector| sector.to_vec()));
    compound(0, END_OF_CHAIN, 1, &sectors)
}

fn record(kind: u16, data: &[u8]) -> Vec<u8> {
    let mut out = kind.to_le_bytes().to_vec();
    out.extend_from_slice(&(data.len() as u16).to_le_bytes());
    out.extend_from_slice(data);
    out
}

fn label(row: u16, column: u16, text: &str) -> Vec<u8> {
    let mut data = Vec::new();
    for number in [row, column, 0, text.encode_utf16().count() as u16] {
        data.extend_from_slice(&number.to_le_bytes());
    }
    data.push(1);
    data.extend_from_slice(&wide(text));
    record(0x0204, &data)
}

/// The stream of an `.xls` workbook with one sheet, which starts at `position`.
fn xls_stream(position: u32) -> Vec<u8> {
    let mut bound = position.to_le_bytes().to_vec();
    bound.extend_from_slice(&[0, 0, 4, 1]);
    bound.extend_from_slice(&wide("Лист"));
    let mut out = record(0x0809, &[0, 6, 5, 0]);
    out.extend(record(0x0085, &bound));
    out.extend(record(0x000a, &[]));
    assert_eq!(out.len(), 32);
    out.extend(record(0x0809, &[0, 6, 16, 0]));
    out.extend(label(0, 0, "День"));
    out.extend(label(1, 1, "два"));
    let mut number = vec![1, 0, 0, 0, 0, 0];
    number.extend_from_slice(&7.0f64.to_le_bytes());
    out.extend(record(0x0203, &number));
    out.extend(record(0x000a, &[]));
    out
}

#[test]
fn xls_workbooks_are_read() {
    let contents = compound_workbook(&xls_stream(32), END_OF_CHAIN);
    let sheets = [vec![
        vec![Cell::Text("День".to_owned()), Cell::Empty],
        vec![Cell::Value("7".to_owned()), Cell::Text("два".to_owned())],
    ]];
    assert_eq!(read_workbook(Format::Xls, contents.clone()).unwrap(), sheets);
    assert_eq!(read_workbook(Format::Unknown, contents.clone()).unwrap(), sheets);
    assert_eq!(parse_file(contents, Some("xls")), Err(ParseError::NoScheduleSheets));
}

#[test]
fn an_allocation_table_may_end_with_the_file() {
    // The table moves from sector 0 to the last one, and keeps the numbers that it needs.
    let whole = compound_workbook(&xls_stream(32), END_OF_CHAIN);
    let mut sectors: Vec<Vec<u8>> = whole[512..].chunks(512).map(|sector| sector.to_vec()).collect();
    let table = sectors[0][..4 * 10].to_vec();
    sectors.push(table);
    let contents = compound(10, END_OF_CHAIN, 1, &sectors);
    assert_eq!(contents.len() % 512, 40);
    assert!(has_sound_chains(&contents));
    assert_eq!(
        read_workbook(Format::Xls, contents),
        read_workbook(Format::Xls, whole.clone())
    );
    assert!(read_workbook(Format::Xls, whole).is_ok());
    // A circle in what is left of it.
    sectors[10][4..8].copy_from_slice(&1u32.to_le_bytes());
    assert!(!has_sound_chains(&compound(10, END_OF_CHAIN, 1, &sectors)));
}

fn part(kind: u16, data: &[u8]) -> Vec<u8> {
    let mut out = if kind < 0x80 {
        vec![kind as u8]
    } else {
        vec![(kind & 0x7f) as u8 | 0x80, (kind >> 7) as u8]
    };
    let mut left = data.len();
    while left >= 0x80 {
        out.push((left & 0x7f) as u8 | 0x80);
        left >>= 7;
    }
    out.push(left as u8);
    out.extend_from_slice(data);
    out
}

fn counted(text: &str) -> Vec<u8> {
    let mut out = (text.encode_utf16().count() as u32).to_le_bytes().to_vec();
    out.extend_from_slice(&wide(text));
    out
}

/// An `.xlsb` workbook with one sheet, which is linked under `link`, and the name `Имя` for a formula.
fn xlsb_workbook(link: &str, formula: &[u8]) -> Vec<u8> {
    let mut bundle = vec![0; 8];
    bundle.extend(counted("rId1"));
    bundle.extend(counted("Лист"));
    let mut book = part(0x009c, &bundle);
    book.extend(part(0x0090, &[]));
    let mut name = vec![0; 9];
    name.extend(counted("Имя"));
    name.extend_from_slice(&(formula.len() as u32).to_le_bytes());
    name.extend_from_slice(formula);
    book.extend(part(0x0027, &name));
    book.extend(part(0x0084, &[]));
    let mut sheet = part(0x0081, &[]);
    let mut size = vec![0; 16];
    size[4] = 1;
    size[12] = 1;
    sheet.extend(part(0x0094, &size));
    sheet.extend(part(0x0091, &[]));
    for (row, column, text) in [(0u32, 0u32, "День"), (1, 1, "два")] {
        sheet.extend(part(0x0000, &row.to_le_bytes()));
        let mut cell = column.to_le_bytes().to_vec();
        cell.extend_from_slice(&[0; 4]);
        cell.extend(counted(text));
        sheet.extend(part(0x0006, &cell));
    }
    sheet.extend(part(0x0092, &[]));
    let links = format!(
        "<?xml version=\"1.0\" encoding=\"UTF-8\"?><Relationships><Relationship Id=\"{link}\" Target=\"worksheets/sheet1.bin\"/></Relationships>"
    );
    zip(&[
        ("xl/workbook.bin", book),
        ("xl/_rels/workbook.bin.rels", links.into_bytes()),
        ("xl/worksheets/sheet1.bin", sheet),
    ])
}

#[test]
fn xlsb_workbooks_are_read() {
    let contents = xlsb_workbook("rId1", &[]);
    let sheets = [vec![
        vec![Cell::Text("День".to_owned()), Cell::Empty],
        vec![Cell::Empty, Cell::Text("два".to_owned())],
    ]];
    assert_eq!(read_workbook(Format::Xlsb, contents.clone()).unwrap(), sheets);
    assert_eq!(read_workbook(Format::Unknown, contents.clone()).unwrap(), sheets);
    assert!(read_workbook(Format::Xlsx, contents).is_err());
}

#[test]
fn deeply_nested_formulas_are_read() {
    // Formulas within formulas, as deep as the length of one allows.
    let depth = 65_535 / 3 + 1;
    let mut formula = Vec::new();
    for level in (0..depth).rev() {
        let inner = 3 * (depth - 1 - level);
        formula.push(0x29);
        formula.extend_from_slice(&(3 * level as u16).to_le_bytes());
        assert_eq!(inner + 3, formula.len());
    }
    assert_eq!(formula.len(), 65_538);
    assert_eq!(formula[..3], [0x29, 0xff, 0xff]);
    assert_eq!(
        read_workbook(Format::Xlsb, xlsb_workbook("rId1", &formula)),
        read_workbook(Format::Xlsb, xlsb_workbook("rId1", &[]))
    );
}

#[test]
fn damaged_workbooks_that_break_the_reading_off_are_refused() {
    // The allocation table is empty, and the directory is to be found in it.
    let no_table = compound(NO_SECTOR, END_OF_CHAIN, 0, &[vec![0; 512]]);
    for extension in [Some("xls"), Some("xlsx"), Some("xlsb"), None] {
        assert_eq!(
            parse_file(no_table.clone(), extension),
            Err(ParseError::BrokenOff),
            "{extension:?}"
        );
    }
    // A single byte is left of the allocation table.
    let cut = compound(0, END_OF_CHAIN, 0, &[vec![0]]);
    assert_eq!(read_workbook(Format::Xls, cut), Err(ReadError::BrokenOff));
    // The sheet starts behind the end of the stream.
    let far = compound_workbook(&xls_stream(5000), END_OF_CHAIN);
    assert_eq!(read_workbook(Format::Xls, far), Err(ReadError::BrokenOff));
    // The sheet is not linked to a part of the archive.
    let unlinked = xlsb_workbook("rId2", &[]);
    assert_eq!(read_workbook(Format::Xlsb, unlinked), Err(ReadError::BrokenOff));
}

#[test]
fn damaged_chains_of_sectors_are_refused() {
    let damaged = [
        // The directory comes after itself.
        compound_workbook(&xls_stream(32), 1),
        // The stream goes back to the directory, and the directory on to the stream.
        compound(0, END_OF_CHAIN, 1, &[numbers(&[(1, 2), (2, 1)]), vec![0; 512], vec![0; 512]]),
        // The list of the sectors of the allocation table comes after itself.
        compound(0, 1, 0, &[numbers(&[]), numbers(&[(127, 1)])]),
        // The sector of the allocation table lies behind the end of the file.
        compound(1, END_OF_CHAIN, 0, &[vec![0]]),
        // The list goes on in a sector that is cut off.
        compound(0, 1, 0, &[numbers(&[]), vec![0; 100]]),
    ];
    for contents in damaged {
        for extension in [Some("xls"), Some("xlsx"), Some("xlsb"), None] {
            assert_eq!(
                parse_file(contents.clone(), extension),
                Err(ParseError::Workbook(DAMAGED_CHAINS.to_owned())),
                "{extension:?}"
            );
        }
    }
}

#[test]
fn chains_of_sectors_that_end_are_sound() {
    // A list that goes on in a second sector, and ends there.
    let mut listing = vec![(127, END_OF_CHAIN)];
    listing.push((0, NO_SECTOR));
    let contents = compound(0, 1, 0, &[numbers(&[(0, 0xffff_fffd)]), numbers(&listing)]);
    assert!(has_sound_chains(&contents));
    // A sector behind the end of the file.
    let far = compound(0, END_OF_CHAIN, 0, &[numbers(&[(5, 400)])]);
    assert!(has_sound_chains(&far));
    // No compound file, whatever it holds.
    let mut other = compound(0, 1, 0, &[numbers(&[]), numbers(&[(127, 1)])]);
    assert!(!has_sound_chains(&other));
    other[0] = 0;
    assert!(has_sound_chains(&other));
    assert!(has_sound_chains(&sample()));
    assert!(has_sound_chains(&Vec::new()));
}

#[test]
fn large_sectors_are_followed_too() {
    let mut contents = compound(0, END_OF_CHAIN, 0, &[]);
    put(&mut contents, 30, &12u16.to_le_bytes());
    // Too short for the header of such a file: nothing is followed.
    assert!(has_sound_chains(&contents));
    contents.resize(4096, 0);
    let mut table = vec![0xff; 4096];
    put(&mut table, 4 * 1000, &1001u32.to_le_bytes());
    contents.extend_from_slice(&table);
    assert!(has_sound_chains(&contents));
    put(&mut contents, 4096 + 4 * 1001, &1000u32.to_le_bytes());
    assert!(!has_sound_chains(&contents));
}
