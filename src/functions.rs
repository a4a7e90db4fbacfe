//! The function registry: entries, their one-row text form, loading with
//! validation, and writing.
use crate::text::{
    chars_of, count_digits, digit_value, fixed_digits, format_fixed,
    lemma_fixed_digits_value, lemma_num_digits_fit, lemma_sixteen_pow_16, num_digits,
    parse_unsigned, parse_unsigned_chars,
};
use std::collections::HashSet;
use vstd::prelude::*;

verus! {

/// The error type of the csv crate.
#[verifier::external_type_specification]
#[verifier::external_body]
pub struct ExCsvError(csv::Error);

} // verus!

verus! {

/// How far the decompiled code of a function is from the original.
#[derive(Clone, Copy, Debug, PartialEq, Eq, Structural)]
pub enum Status {
    Matching,
    NonMatchingMinor,
    NonMatchingMajor,
    NotDecompiled,
    Wip,
    Library,
}

/// The one-character code of each status in the registry file.
pub open spec fn status_code(s: Status) -> char {
    match s {
        Status::Matching => 'O',
        Status::NonMatchingMinor => 'm',
        Status::NonMatchingMajor => 'M',
        Status::NotDecompiled => 'U',
        Status::Wip => 'W',
        Status::Library => 'L',
    }
}

/// The status that a code stands for, if any.
pub open spec fn status_of_code(c: char) -> Option<Status> {
    if c == 'O' {
        Some(Status::Matching)
    } else if c == 'm' {
        Some(Status::NonMatchingMinor)
    } else if c == 'M' {
        Some(Status::NonMatchingMajor)
    } else if c == 'U' {
        Some(Status::NotDecompiled)
    } else if c == 'W' {
        Some(Status::Wip)
    } else if c == 'L' {
        Some(Status::Library)
    } else {
        None
    }
}

pub open spec fn status_description(s: Status) -> Seq<char> {
    match s {
        Status::Matching => "matching"@,
        Status::NonMatchingMinor => "non-matching (minor)"@,
        Status::NonMatchingMajor => "non-matching (major)"@,
        Status::NotDecompiled => "not decompiled"@,
        Status::Wip => "WIP"@,
        Status::Library => "library function"@,
    }
}

impl Status {
    /// A human-readable description of the status.
    pub fn description(&self) -> (r: &'static str)
        ensures
            r@ == status_description(*self),
    {
        match self {
            Status::Matching => "matching",
            Status::NonMatchingMinor => "non-matching (minor)",
            Status::NonMatchingMajor => "non-matching (major)",
            Status::NotDecompiled => "not decompiled",
            Status::Wip => "WIP",
            Status::Library => "library function",
        }
    }

    /// The status's code in the registry file, as a one-character string.
    pub fn code(&self) -> (r: &'static str)
        ensures
            r@ == seq![status_code(*self)],
    {
        match self {
            Status::Matching => {
                proof {
                    reveal_strlit("O");
                }
                "O"
            },
            Status::NonMatchingMinor => {
                proof {
                    reveal_strlit("m");
                }
                "m"
            },
            Status::NonMatchingMajor => {
                proof {
                    reveal_strlit("M");
                }
                "M"
            },
            Status::NotDecompiled => {
                proof {
                    reveal_strlit("U");
                }
                "U"
            },
            Status::Wip => {
                proof {
                    reveal_strlit("W");
                }
                "W"
            },
            Status::Library => {
                proof {
                    reveal_strlit("L");
                }
                "L"
            },
        }
    }

    /// The status whose code is `c`.
    pub fn from_code(c: char) -> (r: Option<Status>)
        ensures
            r == status_of_code(c),
    {
        match c {
            'O' => Some(Status::Matching),
            'm' => Some(Status::NonMatchingMinor),
            'M' => Some(Status::NonMatchingMajor),
            'U' => Some(Status::NotDecompiled),
            'W' => Some(Status::Wip),
            'L' => Some(Status::Library),
            _ => None,
        }
    }
}

/// One function of the executable.
#[derive(Clone, Debug)]
pub struct Info {
    /// Address relative to the base of the executable.
    pub addr: u64,
    pub size: u32,
    pub name: String,
    pub status: Status,
}

/// What an `Info` holds, with the name as its characters.
pub struct FunctionView {
    pub addr: u64,
    pub size: u32,
    pub name: Seq<char>,
    pub status: Status,
}

impl View for Info {
    type V = FunctionView;

    open spec fn view(&self) -> FunctionView {
        FunctionView { addr: self.addr, size: self.size, name: self.name@, status: self.status }
    }
}

pub open spec fn status_is_decompiled(s: Status) -> bool {
    !(s == Status::NotDecompiled || s == Status::Library)
}

pub open spec fn functions_view(fs: Seq<Info>) -> Seq<FunctionView> {
    fs.map_values(|f: Info| f@)
}

impl Info {
    /// Whether the function has been decompiled in some form.
    pub fn is_decompiled(&self) -> (r: bool)
        ensures
            r == status_is_decompiled(self.status),
    {
        !(self.status == Status::NotDecompiled || self.status == Status::Library)
    }
}

/// The address at which the executable under study is loaded.
pub const ADDRESS_BASE: u64 = 0x71_0000_0000;

/// What went wrong reading an address.
#[derive(Clone, Copy, Debug, PartialEq, Eq, Structural)]
pub enum AddressError {
    /// The text is not a hexadecimal `u64`.
    InvalidHex,
    /// The absolute address lies below the base.
    BelowBase,
}

/// The text without a leading `0x`.
pub open spec fn strip_hex_prefix(s: Seq<char>) -> Seq<char> {
    if s.len() >= 2 && s[0] == '0' && s[1] == 'x' {
        s.subrange(2, s.len() as int)
    } else {
        s
    }
}

/// The value of hexadecimal text, with or without a leading `0x`.
pub open spec fn hex_value_of(s: Seq<char>) -> Option<int> {
    parse_unsigned(strip_hex_prefix(s), 16, u64::MAX as int)
}

pub open spec fn relative_of(absolute: int, base: u64) -> Result<u64, AddressError> {
    if absolute < base {
        Err(AddressError::BelowBase)
    } else {
        Ok((absolute - base) as u64)
    }
}

/// The relative address that the text of an absolute address denotes.
pub open spec fn address_of(s: Seq<char>, base: u64) -> Result<u64, AddressError> {
    match hex_value_of(s) {
        None => Err(AddressError::InvalidHex),
        Some(v) => relative_of(v, base),
    }
}

pub fn parse_base_16(value: &str) -> (r: Result<u64, AddressError>)
    ensures
        match r {
            Ok(v) => hex_value_of(value@) == Some(v as int),
            Err(e) => hex_value_of(value@) is None && e == AddressError::InvalidHex,
        },
{
    let cs = chars_of(value);
    let digits: Vec<char> = if cs.len() >= 2 && cs[0] == '0' && cs[1] == 'x' {
        let mut d: Vec<char> = Vec::new();
        let mut i: usize = 2;
        while i < cs.len()
            invariant
                2 <= i <= cs.len(),
                d@ == cs@.subrange(2, i as int),
            decreases cs.len() - i,
        {
            d.push(cs[i]);
            i = i + 1;
        }
        d
    } else {
        cs
    };
    assert(digits@ == strip_hex_prefix(value@));
    match parse_unsigned_chars(&digits, 16, u64::MAX) {
        Some(v) => Ok(v),
        None => Err(AddressError::InvalidHex),
    }
}

/// `absolute - base`, refused when the absolute address lies below the base.
pub fn to_relative(absolute: u64, base: u64) -> (r: Result<u64, AddressError>)
    ensures
        r == relative_of(absolute as int, base),
{
    if absolute < base {
        Err(AddressError::BelowBase)
    } else {
        Ok(absolute - base)
    }
}

/// `relative + base`.
pub fn to_absolute(relative: u64, base: u64) -> (r: u64)
    requires
        relative + base <= u64::MAX,
    ensures
        r == relative + base,
{
    relative + base
}

/// Reads an absolute address in hexadecimal and makes it relative to `base`.
pub fn parse_address(value: &str, base: u64) -> (r: Result<u64, AddressError>)
    ensures
        r == address_of(value@, base),
{
    match parse_base_16(value) {
        Ok(v) => to_relative(v, base),
        Err(e) => Err(e),
    }
}

/// What went wrong decoding one row.
#[derive(Clone, Copy, Debug, PartialEq, Eq, Structural)]
pub enum RecordError {
    /// The row does not have four fields; it has this many.
    FieldCount(usize),
    Address(AddressError),
    /// The size is not a decimal `u32`.
    InvalidSize,
    MissingStatusCode,
    /// The status field holds more than one character.
    StatusCodeTooLong,
    UnknownStatusCode(char),
}

/// The entry that a row of four fields (address, status, size, name) stands for.
pub open spec fn decode_row(row: Seq<Seq<char>>, base: u64) -> Result<FunctionView, RecordError> {
    if row.len() != 4 {
        Err(RecordError::FieldCount(row.len() as usize))
    } else {
        match address_of(row[0], base) {
            Err(e) => Err(RecordError::Address(e)),
            Ok(addr) => match parse_unsigned(row[2], 10, u32::MAX as int) {
                None => Err(RecordError::InvalidSize),
                Some(size) => if row[1].len() == 0 {
                    Err(RecordError::MissingStatusCode)
                } else if row[1].len() > 1 {
                    Err(RecordError::StatusCodeTooLong)
                } else {
                    match status_of_code(row[1][0]) {
                        None => Err(RecordError::UnknownStatusCode(row[1][0])),
                        Some(status) => Ok(
                            FunctionView { addr, size: size as u32, name: row[3], status },
                        ),
                    }
                },
            },
        }
    }
}

/// Decodes one row of the registry file.
pub fn parse_function_csv_entry(record: &Vec<String>, base: u64) -> (r: Result<Info, RecordError>)
    ensures
        match r {
            Ok(f) => decode_row(record.deep_view(), base) == Ok::<FunctionView, RecordError>(f@),
            Err(e) => decode_row(record.deep_view(), base) == Err::<FunctionView, RecordError>(e),
        },
{
    let ghost row = record.deep_view();
    if record.len() != 4 {
        return Err(RecordError::FieldCount(record.len()));
    }
    assert(row[0] == record@[0]@ && row[1] == record@[1]@);
    assert(row[2] == record@[2]@ && row[3] == record@[3]@);
    let addr = match parse_address(record[0].as_str(), base) {
        Ok(a) => a,
        Err(e) => return Err(RecordError::Address(e)),
    };
    let code = chars_of(record[1].as_str());
    let size_text = chars_of(record[2].as_str());
    let size = match parse_unsigned_chars(&size_text, 10, u32::MAX as u64) {
        Some(s) => s as u32,
        None => return Err(RecordError::InvalidSize),
    };
    if code.len() == 0 {
        return Err(RecordError::MissingStatusCode);
    }
    if code.len() > 1 {
        return Err(RecordError::StatusCodeTooLong);
    }
    let status = match Status::from_code(code[0]) {
        Some(s) => s,
        None => return Err(RecordError::UnknownStatusCode(code[0])),
    };
    Ok(Info { addr, size, name: record[3].clone(), status })
}

/// The row that stands for an entry: its absolute address as `0x` and sixteen
/// lowercase hexadecimal digits, its status code, its size in decimal with at
/// least six digits, and its name.
pub open spec fn encode_row(f: FunctionView, base: u64) -> Seq<Seq<char>> {
    seq![
        seq!['0', 'x'] + fixed_digits((f.addr + base) as nat, 16, 16),
        seq![status_code(f.status)],
        fixed_digits(f.size as nat, 10, size_width(f.size)),
        f.name,
    ]
}

pub open spec fn size_width(size: u32) -> nat {
    if num_digits(size as nat, 10) < 6 {
        6
    } else {
        num_digits(size as nat, 10)
    }
}

/// Encodes one entry as a row of the registry file.
pub fn encode_function_csv_entry(function: &Info, base: u64) -> (r: Vec<String>)
    requires
        function.addr + base <= u64::MAX,
    ensures
        r.deep_view() == encode_row(function@, base),
{
    let mut addr = String::from_str("0x");
    proof {
        reveal_strlit("0x");
        assert(addr@ =~= seq!['0', 'x']);
    }
    addr.append(format_fixed(function.addr + base, 16, 16).as_str());
    let digits = count_digits(function.size as u64, 10);
    let width: usize = if digits < 6 {
        6
    } else {
        digits
    };
    let size = format_fixed(function.size as u64, 10, width);
    assert(width == size_width(function.size));
    let mut r: Vec<String> = Vec::new();
    r.push(addr);
    r.push(String::from_str(function.status.code()));
    r.push(size);
    r.push(function.name.clone());
    assert(r@[0]@ == encode_row(function@, base)[0]);
    assert(r@[1]@ == encode_row(function@, base)[1]);
    assert(r@[2]@ == encode_row(function@, base)[2]);
    assert(r@[3]@ == encode_row(function@, base)[3]);
    assert(r.deep_view() =~= encode_row(function@, base));
    r
}

/// The header row of the registry file.
pub open spec fn header_row() -> Seq<Seq<char>> {
    seq!["Address"@, "Quality"@, "Size"@, "Name"@]
}

/// Makes the header row of the registry file.
pub fn make_header() -> (r: Vec<String>)
    ensures
        r.deep_view() == header_row(),
{
    let mut r: Vec<String> = Vec::new();
    r.push(String::from_str("Address"));
    r.push(String::from_str("Quality"));
    r.push(String::from_str("Size"));
    r.push(String::from_str("Name"));
    assert(r.deep_view() =~= header_row());
    r
}

/// Every row of the registry file for `fs`: the header, then one row per entry in order.
pub open spec fn encode_rows(fs: Seq<FunctionView>, base: u64) -> Seq<Seq<Seq<char>>> {
    seq![header_row()] + fs.map_values(|f: FunctionView| encode_row(f, base))
}

pub open spec fn addresses_fit(fs: Seq<FunctionView>, base: u64) -> bool {
    forall|i: int| 0 <= i < fs.len() ==> #[trigger] fs[i].addr + base <= u64::MAX
}

/// Encodes the registry as rows: the header, then one row per function.
pub fn encode_functions(functions: &[Info], base: u64) -> (r: Vec<Vec<String>>)
    requires
        addresses_fit(functions_view(functions@), base),
    ensures
        r.deep_view() == encode_rows(functions_view(functions@), base),
{
    let ghost fs = functions_view(functions@);
    let mut r: Vec<Vec<String>> = Vec::with_capacity(functions.len());
    r.push(make_header());
    let mut i: usize = 0;
    while i < functions.len()
        invariant
            i <= functions.len(),
            fs == functions_view(functions@),
            addresses_fit(fs, base),
            r.deep_view() == encode_rows(fs.take(i as int), base),
        decreases functions.len() - i,
    {
        assert(fs[i as int].addr + base <= u64::MAX);
        let row = encode_function_csv_entry(&functions[i], base);
        let ghost before = r.deep_view();
        r.push(row);
        assert(r.deep_view() =~= before.push(row.deep_view()));
        assert(fs.take(i + 1) == fs.take(i as int).push(fs[i as int]));
        assert(encode_rows(fs.take(i + 1), base) =~= encode_rows(fs.take(i as int), base).push(
            encode_row(fs[i as int], base),
        ));
        i = i + 1;
    }
    assert(fs.take(functions.len() as int) == fs);
    r
}

/// Why a registry could not be loaded.
#[derive(Clone, Debug)]
pub enum LoadError {
    /// The text is not readable as rows of fields.
    Csv,
    /// The first row is not `Address,Quality,Size,Name`.
    WrongHeader,
    /// A row could not be decoded; `line` counts from one, the header included.
    Record { line: usize, error: RecordError },
    /// A decompiled function has no name; `address` is absolute.
    MissingName { address: u64 },
    /// Names that occur more than once, one element per repetition.
    DuplicateNames(Vec<String>),
}

/// What a `LoadError` holds, with the names as their characters.
pub enum LoadFailure {
    Csv,
    WrongHeader,
    Record(usize, RecordError),
    MissingName(u64),
    DuplicateNames(Seq<Seq<char>>),
}

impl View for LoadError {
    type V = LoadFailure;

    open spec fn view(&self) -> LoadFailure {
        match self {
            LoadError::Csv => LoadFailure::Csv,
            LoadError::WrongHeader => LoadFailure::WrongHeader,
            LoadError::Record { line, error } => LoadFailure::Record(*line, *error),
            LoadError::MissingName { address } => LoadFailure::MissingName(*address),
            LoadError::DuplicateNames(names) => LoadFailure::DuplicateNames(names.deep_view()),
        }
    }
}

/// The entries that the data rows stand for, or the index of the first row
/// that cannot be decoded and why.
pub open spec fn decode_rows(rows: Seq<Seq<Seq<char>>>, base: u64) -> Result<
    Seq<FunctionView>,
    (int, RecordError),
>
    decreases rows.len(),
{
    if rows.len() == 0 {
        Ok(Seq::empty())
    } else {
        match decode_rows(rows.drop_last(), base) {
            Err(e) => Err(e),
            Ok(fs) => match decode_row(rows.last(), base) {
                Err(e) => Err((rows.len() - 1, e)),
                Ok(f) => Ok(fs.push(f)),
            },
        }
    }
}

/// A decompiled function must have a name.
pub open spec fn lacks_name(f: FunctionView) -> bool {
    status_is_decompiled(f.status) && f.name.len() == 0
}

pub open spec fn is_first_unnamed(fs: Seq<FunctionView>, i: int) -> bool {
    0 <= i < fs.len() && lacks_name(fs[i]) && forall|j: int| 0 <= j < i ==> !lacks_name(#[trigger] fs[j])
}

/// The non-empty names of `fs`.
pub open spec fn names_in(fs: Seq<FunctionView>) -> Set<Seq<char>> {
    Set::new(|n: Seq<char>| n.len() > 0 && exists|j: int| 0 <= j < fs.len() && #[trigger] fs[j].name == n)
}

/// Each non-empty name that an earlier entry already has, in order.
pub open spec fn duplicate_names(fs: Seq<FunctionView>) -> Seq<Seq<char>>
    decreases fs.len(),
{
    if fs.len() == 0 {
        Seq::empty()
    } else {
        let prev = duplicate_names(fs.drop_last());
        if names_in(fs.drop_last()).contains(fs.last().name) {
            prev.push(fs.last().name)
        } else {
            prev
        }
    }
}

/// The checks over the whole registry: the first decompiled function without
/// a name, else every repeated name, else success.
pub open spec fn validate(fs: Seq<FunctionView>, base: u64) -> Result<Seq<FunctionView>, LoadFailure> {
    if exists|i: int| is_first_unnamed(fs, i) {
        let i = choose|i: int| is_first_unnamed(fs, i);
        Err(LoadFailure::MissingName((fs[i].addr + base) as u64))
    } else if duplicate_names(fs).len() > 0 {
        Err(LoadFailure::DuplicateNames(duplicate_names(fs)))
    } else {
        Ok(fs)
    }
}

/// Loading the rows of a registry file: no rows is no entries; otherwise the
/// header, then every data row decoded, then the checks.
pub open spec fn load_rows(rows: Seq<Seq<Seq<char>>>, base: u64) -> Result<Seq<FunctionView>, LoadFailure> {
    if rows.len() == 0 {
        Ok(Seq::empty())
    } else if rows[0] != header_row() {
        Err(LoadFailure::WrongHeader)
    } else {
        match decode_rows(rows.drop_first(), base) {
            Err((i, e)) => Err(LoadFailure::Record((i + 2) as usize, e)),
            Ok(fs) => validate(fs, base),
        }
    }
}

proof fn lemma_decode_prefix(rows: Seq<Seq<Seq<char>>>, k: int, base: u64)
    requires
        0 <= k <= rows.len(),
        decode_rows(rows.take(k), base) is Err,
    ensures
        decode_rows(rows, base) == decode_rows(rows.take(k), base),
    decreases rows.len(),
{
    if k == rows.len() {
        assert(rows.take(k) == rows);
    } else {
        assert(rows.drop_last().take(k) == rows.take(k));
        lemma_decode_prefix(rows.drop_last(), k, base);
    }
}

/// Whether `row` is the header row.
pub fn is_header(row: &Vec<String>) -> (r: bool)
    ensures
        r == (row.deep_view() == header_row()),
{
    let header = make_header();
    if row.len() != 4 {
        assert(row.deep_view().len() != header_row().len());
        return false;
    }
    assert(header@.len() == header.deep_view().len());
    let mut i: usize = 0;
    while i < 4
        invariant
            row.len() == 4,
            header.len() == 4,
            header.deep_view() == header_row(),
            i <= 4,
            forall|j: int| 0 <= j < i ==> #[trigger] row@[j]@ == header_row()[j],
        decreases 4 - i,
    {
        assert(header@[i as int]@ == header_row()[i as int]);
        if row[i] != header[i] {
            assert(row.deep_view()[i as int] != header_row()[i as int]);
            return false;
        }
        i = i + 1;
    }
    assert(row.deep_view() =~= header_row());
    true
}

pub open spec fn string_set_view(s: Set<String>) -> Set<Seq<char>> {
    s.map(|x: String| x@)
}

/// Relies on std's `HashSet::insert` for strings: the set gains the name, and
/// the result is false exactly when an equal string was in it already.
#[verifier::external_body]
fn insert_name(set: &mut HashSet<String>, name: &String) -> (r: bool)
    ensures
        string_set_view(final(set)@) == string_set_view(old(set)@).insert(name@),
        r == !string_set_view(old(set)@).contains(name@),
{
    set.insert(name.clone())
}

/// Checks the registry as a whole: every decompiled function has a name, and
/// no non-empty name repeats. `num_names` only sizes the set of names.
pub fn check_functions(functions: &Vec<Info>, base: u64, num_names: usize) -> (r: Result<(), LoadError>)
    requires
        addresses_fit(functions_view(functions@), base),
    ensures
        match r {
            Ok(_) => validate(functions_view(functions@), base) == Ok::<
                Seq<FunctionView>,
                LoadFailure,
            >(functions_view(functions@)),
            Err(e) => validate(functions_view(functions@), base) == Err::<
                Seq<FunctionView>,
                LoadFailure,
            >(e@),
        },
{
    let ghost fs = functions_view(functions@);
    let mut known: HashSet<String> = HashSet::with_capacity(num_names);
    let mut duplicates: Vec<String> = Vec::new();
    assert(string_set_view(known@) =~= names_in(fs.take(0)));
    let mut i: usize = 0;
    while i < functions.len()
        invariant
            i <= functions.len(),
            fs == functions_view(functions@),
            addresses_fit(fs, base),
            forall|j: int| 0 <= j < i ==> !lacks_name(#[trigger] fs[j]),
            string_set_view(known@) == names_in(fs.take(i as int)),
            duplicates.deep_view() == duplicate_names(fs.take(i as int)),
        decreases functions.len() - i,
    {
        let f = &functions[i];
        assert(fs[i as int] == f@);
        let ghost pre = fs.take(i as int);
        let ghost next = fs.take(i + 1);
        assert(next.drop_last() == pre);
        if f.is_decompiled() && f.name.as_str().is_empty() {
            assert(is_first_unnamed(fs, i as int));
            assert forall|k: int| is_first_unnamed(fs, k) implies k == i by {
                if k < i {
                    assert(!lacks_name(fs[k]));
                }
                if k > i {
                    assert(!lacks_name(fs[i as int]));
                }
            }
            assert(fs[i as int].addr + base <= u64::MAX);
            return Err(LoadError::MissingName { address: f.addr + base });
        }
        let ghost dups_before = duplicates.deep_view();
        if !f.name.as_str().is_empty() {
            let fresh = insert_name(&mut known, &f.name);
            if !fresh {
                duplicates.push(f.name.clone());
                assert(duplicates.deep_view() =~= dups_before.push(f.name@));
            }
        }
        assert(string_set_view(known@) =~= names_in(next)) by {
            assert forall|n: Seq<char>| names_in(next).contains(n) implies string_set_view(
                known@,
            ).contains(n) by {
                let j = choose|j: int| 0 <= j < next.len() && #[trigger] next[j].name == n;
                if j < i {
                    assert(pre[j] == next[j]);
                }
            }
            assert forall|n: Seq<char>| string_set_view(known@).contains(n) implies names_in(
                next,
            ).contains(n) by {
                if n != f.name@ {
                    assert(names_in(pre).contains(n));
                    let j = choose|j: int| 0 <= j < pre.len() && #[trigger] pre[j].name == n;
                    assert(next[j] == pre[j]);
                } else {
                    assert(next[i as int].name == n);
                }
            }
        }
        assert(duplicates.deep_view() == duplicate_names(next));
        i = i + 1;
    }
    assert(fs.take(functions.len() as int) == fs);
    assert(!exists|k: int| is_first_unnamed(fs, k));
    if duplicates.len() > 0 {
        Err(LoadError::DuplicateNames(duplicates))
    } else {
        Ok(())
    }
}

/// Loads a registry from its rows, the header first.
pub fn get_functions_from_rows(rows: &Vec<Vec<String>>, base: u64) -> (r: Result<Vec<Info>, LoadError>)
    ensures
        match r {
            Ok(v) => load_rows(rows.deep_view(), base) == Ok::<Seq<FunctionView>, LoadFailure>(
                functions_view(v@),
            ),
            Err(e) => load_rows(rows.deep_view(), base) == Err::<Seq<FunctionView>, LoadFailure>(
                e@,
            ),
        },
{
    let ghost all = rows.deep_view();
    if rows.len() == 0 {
        let v: Vec<Info> = Vec::new();
        assert(functions_view(v@) =~= Seq::empty());
        return Ok(v);
    }
    if !is_header(&rows[0]) {
        return Err(LoadError::WrongHeader);
    }
    assert(all[0] == rows@[0].deep_view());
    let ghost data = all.drop_first();
    let mut result: Vec<Info> = Vec::with_capacity(rows.len() - 1);
    let mut num_names: usize = 0;
    let mut i: usize = 1;
    assert(data.take(0) =~= Seq::<Seq<Seq<char>>>::empty());
    assert(functions_view(result@) =~= Seq::empty());
    while i < rows.len()
        invariant
            1 <= i <= rows.len(),
            all == rows.deep_view(),
            all.len() == rows.len(),
            all[0] == header_row(),
            data == all.drop_first(),
            num_names < i,
            decode_rows(data.take(i - 1), base) == Ok::<Seq<FunctionView>, (int, RecordError)>(
                functions_view(result@),
            ),
            addresses_fit(functions_view(result@), base),
        decreases rows.len() - i,
    {
        let ghost pre = data.take(i - 1);
        let ghost next = data.take(i as int);
        assert(next.drop_last() == pre);
        assert(next.last() == rows@[i as int].deep_view());
        match parse_function_csv_entry(&rows[i], base) {
            Err(e) => {
                assert(decode_rows(next, base) == Err::<Seq<FunctionView>, (int, RecordError)>(
                    ((i - 1) as int, e),
                ));
                proof {
                    lemma_decode_prefix(data, i as int, base);
                }
                assert(load_rows(all, base) == Err::<Seq<FunctionView>, LoadFailure>(
                    LoadFailure::Record((i + 1) as usize, e),
                ));
                return Err(LoadError::Record { line: i + 1, error: e });
            },
            Ok(f) => {
                if !f.name.as_str().is_empty() {
                    num_names = num_names + 1;
                }
                let ghost before = result@;
                result.push(f);
                assert(functions_view(result@) =~= functions_view(before).push(f@));
            },
        }
        i = i + 1;
    }
    assert(data.take(rows.len() - 1) == data);
    match check_functions(&result, base, num_names) {
        Ok(_) => Ok(result),
        Err(e) => Err(e),
    }
}

/// Names what the csv crate reads from the bytes of a registry file: its
/// rows, each as its fields, or nothing where it reports an error.
pub uninterp spec fn csv_rows_of(data: Seq<u8>) -> Option<Seq<Seq<Seq<char>>>>;

/// Relies on csv's `ReaderBuilder` (no header row, quoting off, rows of any
/// length) and `Reader::records`: the rows of `data` as strings, or the
/// first error.
#[verifier::external_body]
fn read_csv_rows(data: &[u8]) -> (r: Result<Vec<Vec<String>>, csv::Error>)
    ensures
        match r {
            Ok(rows) => csv_rows_of(data@) == Some(rows.deep_view()),
            Err(_) => csv_rows_of(data@) is None,
        },
{
    let mut reader = csv::ReaderBuilder::new()
        .has_headers(false)
        .quoting(false)
        .flexible(true)
        .from_reader(data);
    reader.records().map(|rec| rec.map(|rec| rec.iter().map(String::from).collect())).collect()
}

/// Loads a registry from the bytes of its file.
pub fn get_functions_from_csv(data: &[u8], base: u64) -> (r: Result<Vec<Info>, LoadError>)
    ensures
        match csv_rows_of(data@) {
            None => r matches Err(LoadError::Csv),
            Some(rows) => match r {
                Ok(v) => load_rows(rows, base) == Ok::<Seq<FunctionView>, LoadFailure>(
                    functions_view(v@),
                ),
                Err(e) => load_rows(rows, base) == Err::<Seq<FunctionView>, LoadFailure>(e@),
            },
        },
{
    match read_csv_rows(data) {
        Ok(rows) => get_functions_from_rows(&rows, base),
        Err(_) => Err(LoadError::Csv),
    }
}

/// Why a registry could not be written.
#[derive(Clone, Copy, Debug, PartialEq, Eq, Structural)]
pub enum WriteError {
    /// The csv writer reported an error.
    Csv,
}

/// Names the bytes that the csv crate writes for the given rows, or nothing
/// where it reports an error.
pub uninterp spec fn csv_text_of(rows: Seq<Seq<Seq<char>>>) -> Option<Seq<u8>>;

/// Relies on csv's `Writer` over a byte buffer: `write_record` for each row,
/// then `into_inner` for the bytes.
#[verifier::external_body]
fn write_csv_rows(rows: &Vec<Vec<String>>) -> (r: Result<Vec<u8>, csv::Error>)
    ensures
        match r {
            Ok(bytes) => csv_text_of(rows.deep_view()) == Some(bytes@),
            Err(_) => csv_text_of(rows.deep_view()) is None,
        },
{
    let mut writer = csv::Writer::from_writer(Vec::new());
    for row in rows {
        writer.write_record(row)?;
    }
    writer.into_inner().map_err(|e| csv::Error::from(e.into_error()))
}

/// The bytes of the registry file for `functions`.
pub fn write_functions_csv(functions: &[Info], base: u64) -> (r: Result<Vec<u8>, WriteError>)
    requires
        addresses_fit(functions_view(functions@), base),
    ensures
        match csv_text_of(encode_rows(functions_view(functions@), base)) {
            None => r == Err::<Vec<u8>, WriteError>(WriteError::Csv),
            Some(bytes) => r matches Ok(b) && b@ == bytes,
        },
{
    let rows = encode_functions(functions, base);
    match write_csv_rows(&rows) {
        Ok(bytes) => Ok(bytes),
        Err(_) => Err(WriteError::Csv),
    }
}

/// A registry that the checks accept and that can be written: every address
/// fits once the base is added, every decompiled function has a name, and no
/// non-empty name repeats.
pub open spec fn well_formed(fs: Seq<FunctionView>, base: u64) -> bool {
    &&& addresses_fit(fs, base)
    &&& forall|i: int| 0 <= i < fs.len() ==> !lacks_name(#[trigger] fs[i])
    &&& forall|i: int, j: int|
        0 <= i < fs.len() && 0 <= j < fs.len() && i != j && fs[i].name.len() > 0 ==> #[trigger] fs[i].name
            != #[trigger] fs[j].name
}

proof fn lemma_digits_read_back(v: nat, radix: nat, width: nat, max: int)
    requires
        2 <= radix <= 16,
        width > 0,
        v < vstd::arithmetic::power::pow(radix as int, width),
        v <= max,
    ensures
        parse_unsigned(fixed_digits(v, radix, width), radix as int, max) == Some(v as int),
{
    lemma_fixed_digits_value(v, radix, width);
    let s = fixed_digits(v, radix, width);
    assert(digit_value(s[0]) >= 0);
}

/// A row written for an entry decodes to that entry.
pub proof fn lemma_decode_encode_row(f: FunctionView, base: u64)
    requires
        f.addr + base <= u64::MAX,
    ensures
        decode_row(encode_row(f, base), base) == Ok::<FunctionView, RecordError>(f),
{
    let row = encode_row(f, base);
    let abs = (f.addr + base) as nat;
    lemma_sixteen_pow_16();
    lemma_digits_read_back(abs, 16, 16, u64::MAX as int);
    assert(strip_hex_prefix(row[0]) == fixed_digits(abs, 16, 16));
    let w = size_width(f.size);
    lemma_num_digits_fit(f.size as nat, 10, w);
    lemma_digits_read_back(f.size as nat, 10, w, u32::MAX as int);
}

proof fn lemma_decode_encode_rows(fs: Seq<FunctionView>, base: u64)
    requires
        addresses_fit(fs, base),
    ensures
        decode_rows(fs.map_values(|f: FunctionView| encode_row(f, base)), base) == Ok::<
            Seq<FunctionView>,
            (int, RecordError),
        >(fs),
    decreases fs.len(),
{
    let rows = fs.map_values(|f: FunctionView| encode_row(f, base));
    if fs.len() > 0 {
        let prev = fs.drop_last();
        assert(rows.drop_last() == prev.map_values(|f: FunctionView| encode_row(f, base)));
        lemma_decode_encode_rows(prev, base);
        assert(fs.last().addr + base <= u64::MAX);
        lemma_decode_encode_row(fs.last(), base);
        assert(prev.push(fs.last()) == fs);
    } else {
        assert(fs == Seq::<FunctionView>::empty());
    }
}

proof fn lemma_unique_names_no_duplicates(fs: Seq<FunctionView>, base: u64)
    requires
        well_formed(fs, base),
    ensures
        duplicate_names(fs) == Seq::<Seq<char>>::empty(),
    decreases fs.len(),
{
    if fs.len() > 0 {
        let prev = fs.drop_last();
        assert(well_formed(prev, base)) by {
            assert forall|i: int, j: int|
                0 <= i < prev.len() && 0 <= j < prev.len() && i != j && prev[i].name.len()
                    > 0 implies #[trigger] prev[i].name != #[trigger] prev[j].name by {
                assert(prev[i] == fs[i] && prev[j] == fs[j]);
            }
            assert forall|i: int| 0 <= i < prev.len() implies !lacks_name(#[trigger] prev[i]) by {
                assert(prev[i] == fs[i]);
            }
            assert forall|i: int| 0 <= i < prev.len() implies #[trigger] prev[i].addr + base
                <= u64::MAX by {
                assert(prev[i] == fs[i]);
            }
        }
        lemma_unique_names_no_duplicates(prev, base);
        if names_in(prev).contains(fs.last().name) {
            let j = choose|j: int| 0 <= j < prev.len() && #[trigger] prev[j].name == fs.last().name;
            assert(fs[j].name == fs[fs.len() - 1].name);
        }
    }
}

/// Round trip: the rows written for a well-formed registry load back as the
/// same entries, in the same order.
pub proof fn lemma_load_encode_round_trip(fs: Seq<FunctionView>, base: u64)
    requires
        well_formed(fs, base),
    ensures
        load_rows(encode_rows(fs, base), base) == Ok::<Seq<FunctionView>, LoadFailure>(fs),
{
    let rows = encode_rows(fs, base);
    assert(rows[0] == header_row());
    assert(rows.drop_first() == fs.map_values(|f: FunctionView| encode_row(f, base)));
    lemma_decode_encode_rows(fs, base);
    lemma_unique_names_no_duplicates(fs, base);
    assert(!exists|i: int| is_first_unnamed(fs, i));
}

proof fn lemma_first_unnamed_exists(fs: Seq<FunctionView>, k: int)
    requires
        0 <= k < fs.len(),
        lacks_name(fs[k]),
    ensures
        exists|i: int| is_first_unnamed(fs, i),
    decreases fs.len(),
{
    let prev = fs.drop_last();
    if exists|j: int| 0 <= j < prev.len() && lacks_name(#[trigger] prev[j]) {
        let j = choose|j: int| 0 <= j < prev.len() && lacks_name(#[trigger] prev[j]);
        lemma_first_unnamed_exists(prev, j);
        let i = choose|i: int| is_first_unnamed(prev, i);
        assert forall|m: int| 0 <= m < i implies !lacks_name(#[trigger] fs[m]) by {
            assert(fs[m] == prev[m]);
        }
        assert(is_first_unnamed(fs, i));
    } else {
        assert forall|m: int| 0 <= m < fs.len() - 1 implies !lacks_name(#[trigger] fs[m]) by {
            assert(fs[m] == prev[m]);
        }
        assert(is_first_unnamed(fs, fs.len() - 1));
    }
}

/// Loading rejects a registry in which a decompiled function has no name,
/// with `MissingName`.
pub proof fn lemma_unnamed_rejected(fs: Seq<FunctionView>, base: u64, k: int)
    requires
        addresses_fit(fs, base),
        0 <= k < fs.len(),
        status_is_decompiled(fs[k].status),
        fs[k].name.len() == 0,
    ensures
        load_rows(encode_rows(fs, base), base) matches Err(LoadFailure::MissingName(_)),
{
    let rows = encode_rows(fs, base);
    assert(rows[0] == header_row());
    assert(rows.drop_first() == fs.map_values(|f: FunctionView| encode_row(f, base)));
    lemma_decode_encode_rows(fs, base);
    lemma_first_unnamed_exists(fs, k);
}

proof fn lemma_duplicate_listed(fs: Seq<FunctionView>, i: int, j: int)
    requires
        0 <= i < j < fs.len(),
        fs[i].name == fs[j].name,
        fs[i].name.len() > 0,
    ensures
        duplicate_names(fs).contains(fs[j].name),
    decreases fs.len(),
{
    let prev = fs.drop_last();
    if j == fs.len() - 1 {
        assert(prev[i].name == fs[j].name);
        assert(names_in(prev).contains(fs.last().name));
        assert(duplicate_names(fs).last() == fs[j].name);
    } else {
        assert(prev[i] == fs[i] && prev[j] == fs[j]);
        lemma_duplicate_listed(prev, i, j);
        let k = choose|k: int| 0 <= k < duplicate_names(prev).len() && duplicate_names(prev)[k]
            == fs[j].name;
        if names_in(prev).contains(fs.last().name) {
            assert(duplicate_names(fs)[k] == duplicate_names(prev)[k]);
        }
    }
}

/// Loading rejects a registry in which two entries share a non-empty name
/// (and every decompiled function is named) with `DuplicateNames`, and the
/// list holds that name.
pub proof fn lemma_duplicate_rejected(fs: Seq<FunctionView>, base: u64, i: int, j: int)
    requires
        addresses_fit(fs, base),
        forall|k: int| 0 <= k < fs.len() ==> !lacks_name(#[trigger] fs[k]),
        0 <= i < j < fs.len(),
        fs[i].name == fs[j].name,
        fs[i].name.len() > 0,
    ensures
        load_rows(encode_rows(fs, base), base) matches Err(LoadFailure::DuplicateNames(names))
            && names.contains(fs[i].name),
{
    let rows = encode_rows(fs, base);
    assert(rows[0] == header_row());
    assert(rows.drop_first() == fs.map_values(|f: FunctionView| encode_row(f, base)));
    lemma_decode_encode_rows(fs, base);
    lemma_duplicate_listed(fs, i, j);
    assert(!exists|k: int| is_first_unnamed(fs, k));
}

/// Loading rejects rows whose first row is not the header.
pub proof fn lemma_header_required(rows: Seq<Seq<Seq<char>>>, base: u64)
    requires
        rows.len() > 0,
        rows[0] != header_row(),
    ensures
        load_rows(rows, base) == Err::<Seq<FunctionView>, LoadFailure>(LoadFailure::WrongHeader),
{
}

} // verus!
