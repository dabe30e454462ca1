//! The tabular forms of sample data: which columns are written, and how a row
//! that is read becomes a sample.

use vstd::prelude::*;
use vstd::string::StringExecFns;

use crate::float::F32;
use crate::sample::Sample;
use crate::text;

verus! {

/// The part of a sample that a BLE meter measures.
#[derive(Debug, Clone, Copy, PartialEq, Eq, Structural)]
pub struct BleSampleView {
    pub timestamp_ms: u64,
    pub voltage_v: F32,
    pub current_a: F32,
    pub power_w: F32,
}

impl BleSampleView {
    /// The part of `s` that a BLE meter measures.
    pub fn of_sample(s: &Sample) -> (r: BleSampleView)
        ensures
            r == (BleSampleView {
                timestamp_ms: s.timestamp_ms,
                voltage_v: s.voltage_v,
                current_a: s.current_a,
                power_w: s.power_w,
            }),
    {
        BleSampleView {
            timestamp_ms: s.timestamp_ms,
            voltage_v: s.voltage_v,
            current_a: s.current_a,
            power_w: s.power_w,
        }
    }
}

/// A column of a table of samples.
#[derive(Debug, Clone, Copy, PartialEq, Eq, Structural)]
pub enum Column {
    TimestampMs,
    VoltageV,
    CurrentA,
    PowerW,
    DpV,
    DnV,
    TempC,
    RawVoltage,
    RawCurrent,
}

impl Column {
    /// The column's name in a header.
    pub open spec fn title(self) -> Seq<char> {
        match self {
            Column::TimestampMs => "timestamp_ms"@,
            Column::VoltageV => "voltage_v"@,
            Column::CurrentA => "current_a"@,
            Column::PowerW => "power_w"@,
            Column::DpV => "dp_v"@,
            Column::DnV => "dn_v"@,
            Column::TempC => "temp_c"@,
            Column::RawVoltage => "raw_voltage"@,
            Column::RawCurrent => "raw_current"@,
        }
    }

    /// The column's name in a header.
    pub fn name(self) -> (r: &'static str)
        ensures
            r@ == self.title(),
    {
        match self {
            Column::TimestampMs => "timestamp_ms",
            Column::VoltageV => "voltage_v",
            Column::CurrentA => "current_a",
            Column::PowerW => "power_w",
            Column::DpV => "dp_v",
            Column::DnV => "dn_v",
            Column::TempC => "temp_c",
            Column::RawVoltage => "raw_voltage",
            Column::RawCurrent => "raw_current",
        }
    }
}

/// The columns that are written: the last five only for USB meters.
pub open spec fn table(include_usb_fields: bool) -> Seq<Column> {
    let ble = seq![Column::TimestampMs, Column::VoltageV, Column::CurrentA, Column::PowerW];
    if include_usb_fields {
        ble + seq![
            Column::DpV,
            Column::DnV,
            Column::TempC,
            Column::RawVoltage,
            Column::RawCurrent,
        ]
    } else {
        ble
    }
}

/// The columns that are written: the last five only for USB meters.
pub fn columns(include_usb_fields: bool) -> (r: Vec<Column>)
    ensures
        r@ == table(include_usb_fields),
{
    let mut r: Vec<Column> = Vec::new();
    r.push(Column::TimestampMs);
    r.push(Column::VoltageV);
    r.push(Column::CurrentA);
    r.push(Column::PowerW);
    if include_usb_fields {
        r.push(Column::DpV);
        r.push(Column::DnV);
        r.push(Column::TempC);
        r.push(Column::RawVoltage);
        r.push(Column::RawCurrent);
    }
    assert(r@ =~= table(include_usb_fields));
    r
}

/// A value as it is written.
#[derive(Debug, Clone, Copy, PartialEq, Eq, Structural)]
pub enum Value {
    U64(u64),
    U32(u32),
    F32(F32),
}

/// What `sample` holds in a column.
pub open spec fn entry(sample: Sample, column: Column) -> Value {
    match column {
        Column::TimestampMs => Value::U64(sample.timestamp_ms),
        Column::VoltageV => Value::F32(sample.voltage_v),
        Column::CurrentA => Value::F32(sample.current_a),
        Column::PowerW => Value::F32(sample.power_w),
        Column::DpV => Value::F32(sample.dp_v),
        Column::DnV => Value::F32(sample.dn_v),
        Column::TempC => Value::F32(sample.temp_c),
        Column::RawVoltage => Value::U32(sample.raw_voltage),
        Column::RawCurrent => Value::U32(sample.raw_current),
    }
}

/// What `sample` holds in a column.
pub fn value_in(sample: &Sample, column: Column) -> (r: Value)
    ensures
        r == entry(*sample, column),
{
    match column {
        Column::TimestampMs => Value::U64(sample.timestamp_ms),
        Column::VoltageV => Value::F32(sample.voltage_v),
        Column::CurrentA => Value::F32(sample.current_a),
        Column::PowerW => Value::F32(sample.power_w),
        Column::DpV => Value::F32(sample.dp_v),
        Column::DnV => Value::F32(sample.dn_v),
        Column::TempC => Value::F32(sample.temp_c),
        Column::RawVoltage => Value::U32(sample.raw_voltage),
        Column::RawCurrent => Value::U32(sample.raw_current),
    }
}

/// The row that is written for a sample.
pub fn row_of(sample: &Sample, include_usb_fields: bool) -> (r: Vec<Value>)
    ensures
        r@ == table(include_usb_fields).map_values(|c: Column| entry(*sample, c)),
{
    let list = columns(include_usb_fields);
    let mut r: Vec<Value> = Vec::new();
    let mut i: usize = 0;
    while i < list.len()
        invariant
            list@ == table(include_usb_fields),
            i <= list@.len(),
            r@ == list@.subrange(0, i as int).map_values(|c: Column| entry(*sample, c)),
        decreases list@.len() - i,
    {
        r.push(value_in(sample, list[i]));
        i = i + 1;
        assert(r@ =~= list@.subrange(0, i as int).map_values(|c: Column| entry(*sample, c)));
    }
    assert(list@.subrange(0, i as int) =~= list@);
    r
}

/// A number that was read, converted to each of the types a column can have.
#[derive(Debug, Clone, Copy, PartialEq, Eq, Structural)]
pub struct Cell {
    pub as_u64: u64,
    pub as_u32: u32,
    pub as_f32: F32,
}

impl Cell {
    /// Zero, which stands for a number that is missing.
    pub open spec fn zero() -> Cell {
        Cell { as_u64: 0, as_u32: 0, as_f32: F32 { bits: 0 } }
    }
}

/// The last place where `name` stands in a header, if there is one.
pub open spec fn last_place(header: Seq<Option<String>>, name: Seq<char>) -> Option<int>
    decreases header.len(),
{
    if header.len() == 0 {
        None
    } else {
        match header.last() {
            Some(title) if title@ == name => Some(header.len() - 1),
            _ => last_place(header.drop_last(), name),
        }
    }
}

/// The first place where `name` stands in a header, if there is one.
pub open spec fn first_place(header: Seq<Option<String>>, name: Seq<char>) -> Option<int>
    decreases header.len(),
{
    if header.len() == 0 {
        None
    } else {
        match first_place(header.drop_last(), name) {
            Some(i) => Some(i),
            None => match header.last() {
                Some(title) if title@ == name => Some(header.len() - 1),
                _ => None,
            },
        }
    }
}

/// The number in a row at `place`, or zero.
pub open spec fn cell_at(row: Seq<Option<Cell>>, place: Option<int>) -> Cell {
    match place {
        Some(i) if 0 <= i < row.len() => match row[i] {
            Some(cell) => cell,
            None => Cell::zero(),
        },
        _ => Cell::zero(),
    }
}

/// The sample whose columns are where `place` says, zero where they are missing.
pub open spec fn gathered(
    row: Seq<Option<Cell>>,
    place: spec_fn(Column) -> Option<int>,
) -> Sample {
    Sample {
        timestamp_ms: cell_at(row, place(Column::TimestampMs)).as_u64,
        voltage_v: cell_at(row, place(Column::VoltageV)).as_f32,
        current_a: cell_at(row, place(Column::CurrentA)).as_f32,
        power_w: cell_at(row, place(Column::PowerW)).as_f32,
        dp_v: cell_at(row, place(Column::DpV)).as_f32,
        dn_v: cell_at(row, place(Column::DnV)).as_f32,
        temp_c: cell_at(row, place(Column::TempC)).as_f32,
        raw_voltage: cell_at(row, place(Column::RawVoltage)).as_u32,
        raw_current: cell_at(row, place(Column::RawCurrent)).as_u32,
    }
}

/// Where each column stands.
#[derive(Debug, Clone, Copy, PartialEq, Eq, Structural)]
pub struct Places {
    pub timestamp_ms: Option<usize>,
    pub voltage_v: Option<usize>,
    pub current_a: Option<usize>,
    pub power_w: Option<usize>,
    pub dp_v: Option<usize>,
    pub dn_v: Option<usize>,
    pub temp_c: Option<usize>,
    pub raw_voltage: Option<usize>,
    pub raw_current: Option<usize>,
}

/// A place as a mathematical one.
pub open spec fn wide(place: Option<usize>) -> Option<int> {
    match place {
        Some(i) => Some(i as int),
        None => None,
    }
}

impl Places {
    /// Where a column stands.
    pub open spec fn of(self, column: Column) -> Option<int> {
        match column {
            Column::TimestampMs => wide(self.timestamp_ms),
            Column::VoltageV => wide(self.voltage_v),
            Column::CurrentA => wide(self.current_a),
            Column::PowerW => wide(self.power_w),
            Column::DpV => wide(self.dp_v),
            Column::DnV => wide(self.dn_v),
            Column::TempC => wide(self.temp_c),
            Column::RawVoltage => wide(self.raw_voltage),
            Column::RawCurrent => wide(self.raw_current),
        }
    }
}

fn find_last(header: &Vec<Option<String>>, column: Column) -> (r: Option<usize>)
    ensures
        wide(r) == last_place(header@, column.title()),
{
    let name = column.name().to_owned();
    let mut found: Option<usize> = None;
    let mut i: usize = 0;
    while i < header.len()
        invariant
            name@ == column.title(),
            i <= header@.len(),
            wide(found) == last_place(header@.subrange(0, i as int), column.title()),
        decreases header@.len() - i,
    {
        proof {
            let next = header@.subrange(0, i + 1);
            assert(next.drop_last() =~= header@.subrange(0, i as int));
            assert(next.last() == header@[i as int]);
        }
        if let Some(title) = &header[i] {
            if *title == name {
                found = Some(i);
            }
        }
        i = i + 1;
    }
    assert(header@.subrange(0, i as int) =~= header@);
    found
}

fn find_first(header: &Vec<Option<String>>, column: Column) -> (r: Option<usize>)
    ensures
        wide(r) == first_place(header@, column.title()),
{
    let name = column.name().to_owned();
    let mut found: Option<usize> = None;
    let mut i: usize = 0;
    while i < header.len()
        invariant
            name@ == column.title(),
            i <= header@.len(),
            wide(found) == first_place(header@.subrange(0, i as int), column.title()),
        decreases header@.len() - i,
    {
        proof {
            let next = header@.subrange(0, i + 1);
            assert(next.drop_last() =~= header@.subrange(0, i as int));
            assert(next.last() == header@[i as int]);
        }
        if let Some(title) = &header[i] {
            if *title == name && found.is_none() {
                found = Some(i);
            }
        }
        i = i + 1;
    }
    assert(header@.subrange(0, i as int) =~= header@);
    found
}

fn cell(row: &Vec<Option<Cell>>, place: Option<usize>) -> (r: Cell)
    ensures
        r == cell_at(row@, wide(place)),
{
    let zero = Cell { as_u64: 0, as_u32: 0, as_f32: F32 { bits: 0 } };
    match place {
        Some(i) => if i < row.len() {
            match row[i] {
                Some(c) => c,
                None => zero,
            }
        } else {
            zero
        },
        None => zero,
    }
}

fn gather(row: &Vec<Option<Cell>>, places: Places) -> (r: Sample)
    ensures
        r == gathered(row@, |c: Column| places.of(c)),
{
    Sample {
        timestamp_ms: cell(row, places.timestamp_ms).as_u64,
        voltage_v: cell(row, places.voltage_v).as_f32,
        current_a: cell(row, places.current_a).as_f32,
        power_w: cell(row, places.power_w).as_f32,
        dp_v: cell(row, places.dp_v).as_f32,
        dn_v: cell(row, places.dn_v).as_f32,
        temp_c: cell(row, places.temp_c).as_f32,
        raw_voltage: cell(row, places.raw_voltage).as_u32,
        raw_current: cell(row, places.raw_current).as_u32,
    }
}

fn gather_all(rows: &Vec<Vec<Option<Cell>>>, places: Places) -> (r: Vec<Sample>)
    ensures
        r@.len() == rows@.len(),
        forall|i: int|
            0 <= i < rows@.len() ==> #[trigger] r@[i] == gathered(
                rows@[i]@,
                |c: Column| places.of(c),
            ),
{
    let mut samples: Vec<Sample> = Vec::new();
    let mut i: usize = 0;
    while i < rows.len()
        invariant
            i <= rows@.len(),
            samples@.len() == i,
            forall|j: int|
                0 <= j < i ==> #[trigger] samples@[j] == gathered(
                    rows@[j]@,
                    |c: Column| places.of(c),
                ),
        decreases rows@.len() - i,
    {
        samples.push(gather(&rows[i], places));
        i = i + 1;
    }
    samples
}

/// Read the rows of a sheet under a header; a header cell that is not text has
/// no name, and of columns with the same name the last counts. What is missing,
/// or is not a number, is zero.
pub fn read_xlsx(header: &Vec<Option<String>>, rows: &Vec<Vec<Option<Cell>>>) -> (r: Vec<Sample>)
    ensures
        r@.len() == rows@.len(),
        forall|i: int|
            0 <= i < rows@.len() ==> #[trigger] r@[i] == gathered(
                rows@[i]@,
                |c: Column| last_place(header@, c.title()),
            ),
{
    let places = Places {
        timestamp_ms: find_last(header, Column::TimestampMs),
        voltage_v: find_last(header, Column::VoltageV),
        current_a: find_last(header, Column::CurrentA),
        power_w: find_last(header, Column::PowerW),
        dp_v: find_last(header, Column::DpV),
        dn_v: find_last(header, Column::DnV),
        temp_c: find_last(header, Column::TempC),
        raw_voltage: find_last(header, Column::RawVoltage),
        raw_current: find_last(header, Column::RawCurrent),
    };
    assert((|c: Column| places.of(c)) =~= (|c: Column| last_place(header@, c.title()))) by {
        assert forall|c: Column| #[trigger] places.of(c) == last_place(header@, c.title()) by {}
    }
    gather_all(rows, places)
}

/// Read the rows of a record batch; of columns with the same name the first
/// counts. What is missing, null or not numeric is zero.
pub fn read_parquet(header: &Vec<Option<String>>, rows: &Vec<Vec<Option<Cell>>>) -> (r: Vec<Sample>)
    ensures
        r@.len() == rows@.len(),
        forall|i: int|
            0 <= i < rows@.len() ==> #[trigger] r@[i] == gathered(
                rows@[i]@,
                |c: Column| first_place(header@, c.title()),
            ),
{
    let places = Places {
        timestamp_ms: find_first(header, Column::TimestampMs),
        voltage_v: find_first(header, Column::VoltageV),
        current_a: find_first(header, Column::CurrentA),
        power_w: find_first(header, Column::PowerW),
        dp_v: find_first(header, Column::DpV),
        dn_v: find_first(header, Column::DnV),
        temp_c: find_first(header, Column::TempC),
        raw_voltage: find_first(header, Column::RawVoltage),
        raw_current: find_first(header, Column::RawCurrent),
    };
    assert((|c: Column| places.of(c)) =~= (|c: Column| first_place(header@, c.title()))) by {
        assert forall|c: Column| #[trigger] places.of(c) == first_place(header@, c.title()) by {}
    }
    gather_all(rows, places)
}

proof fn titles_are_distinct(a: Column, b: Column)
    requires
        a != b,
    ensures
        a.title() != b.title(),
{
    reveal_strlit("timestamp_ms");
    reveal_strlit("voltage_v");
    reveal_strlit("current_a");
    reveal_strlit("power_w");
    reveal_strlit("dp_v");
    reveal_strlit("dn_v");
    reveal_strlit("temp_c");
    reveal_strlit("raw_voltage");
    reveal_strlit("raw_current");
    assert("timestamp_ms"@.len() == 12);
    assert("voltage_v"@.len() == 9);
    assert("current_a"@.len() == 9);
    assert("power_w"@.len() == 7);
    assert("dp_v"@.len() == 4);
    assert("dn_v"@.len() == 4);
    assert("temp_c"@.len() == 6);
    assert("raw_voltage"@.len() == 11);
    assert("raw_current"@.len() == 11);
    assert("voltage_v"@[0] != "current_a"@[0]);
    assert("dp_v"@[1] != "dn_v"@[1]);
    assert("raw_voltage"@[4] != "raw_current"@[4]);
}

proof fn only_place(header: Seq<Option<String>>, name: Seq<char>, i: int)
    requires
        0 <= i < header.len(),
        header[i] is Some,
        header[i]->0@ == name,
        forall|j: int|
            0 <= j < header.len() && j != i ==> (#[trigger] header[j]) is Some && header[j]->0@
                != name,
    ensures
        last_place(header, name) == Some(i),
        first_place(header, name) == Some(i),
    decreases header.len(),
{
    let init = header.drop_last();
    if i < header.len() - 1 {
        only_place(init, name, i);
    } else {
        no_place(init, name);
    }
}

proof fn no_place(header: Seq<Option<String>>, name: Seq<char>)
    requires
        forall|j: int|
            0 <= j < header.len() ==> (#[trigger] header[j]) is Some && header[j]->0@ != name,
    ensures
        last_place(header, name) is None,
        first_place(header, name) is None,
    decreases header.len(),
{
    if header.len() > 0 {
        no_place(header.drop_last(), name);
    }
}

/// Whether a cell that was read is the value that was written.
pub open spec fn reads_back(cell: Option<Cell>, value: Value) -> bool {
    match (cell, value) {
        (Some(c), Value::U64(v)) => c.as_u64 == v,
        (Some(c), Value::U32(v)) => c.as_u32 == v,
        (Some(c), Value::F32(v)) => c.as_f32 == v,
        _ => false,
    }
}

/// What a table keeps of a sample: without the USB columns, the fields that
/// only they hold are zero.
pub open spec fn kept(sample: Sample, include_usb_fields: bool) -> Sample {
    let zero = F32 { bits: 0 };
    if include_usb_fields {
        sample
    } else {
        Sample { dp_v: zero, dn_v: zero, temp_c: zero, raw_voltage: 0, raw_current: 0, ..sample }
    }
}

proof fn table_places(include_usb_fields: bool, header: Seq<Option<String>>, column: Column)
    requires
        header.len() == table(include_usb_fields).len(),
        forall|i: int|
            0 <= i < header.len() ==> (#[trigger] header[i]) is Some && header[i]->0@ == table(
                include_usb_fields,
            )[i].title(),
    ensures
        first_place(header, column.title()) == last_place(header, column.title()),
        match last_place(header, column.title()) {
            Some(i) => 0 <= i < header.len() && table(include_usb_fields)[i] == column,
            None => !table(include_usb_fields).contains(column),
        },
{
    let list = table(include_usb_fields);
    if list.contains(column) {
        let i = choose|i: int| 0 <= i < list.len() && list[i] == column;
        assert forall|j: int| 0 <= j < header.len() && j != i implies (
        #[trigger] header[j]) is Some && header[j]->0@ != column.title() by {
            assert(list[j] != column);
            titles_are_distinct(list[j], column);
        }
        only_place(header, column.title(), i);
    } else {
        assert forall|j: int| 0 <= j < header.len() implies (#[trigger] header[j]) is Some
            && header[j]->0@ != column.title() by {
            assert(list.contains(list[j]));
            titles_are_distinct(list[j], column);
        }
        no_place(header, column.title());
    }
}

/// Table law: a row read under the header that was written, with the values
/// that were written, is the sample; without the USB columns, what only they
/// hold comes back as zero. It makes no difference which of two columns of one
/// name counts.
pub proof fn table_round_trip(
    sample: Sample,
    include_usb_fields: bool,
    header: Seq<Option<String>>,
    row: Seq<Option<Cell>>,
)
    requires
        header.len() == table(include_usb_fields).len(),
        forall|i: int|
            0 <= i < header.len() ==> (#[trigger] header[i]) is Some && header[i]->0@ == table(
                include_usb_fields,
            )[i].title(),
        row.len() == header.len(),
        forall|i: int|
            0 <= i < row.len() ==> reads_back(
                #[trigger] row[i],
                entry(sample, table(include_usb_fields)[i]),
            ),
    ensures
        gathered(row, |c: Column| last_place(header, c.title())) == kept(
            sample,
            include_usb_fields,
        ),
        gathered(row, |c: Column| first_place(header, c.title())) == kept(
            sample,
            include_usb_fields,
        ),
{
    let list = table(include_usb_fields);
    table_places(include_usb_fields, header, Column::TimestampMs);
    table_places(include_usb_fields, header, Column::VoltageV);
    table_places(include_usb_fields, header, Column::CurrentA);
    table_places(include_usb_fields, header, Column::PowerW);
    table_places(include_usb_fields, header, Column::DpV);
    table_places(include_usb_fields, header, Column::DnV);
    table_places(include_usb_fields, header, Column::TempC);
    table_places(include_usb_fields, header, Column::RawVoltage);
    table_places(include_usb_fields, header, Column::RawCurrent);
    assert(list[0] == Column::TimestampMs);
    assert(list[1] == Column::VoltageV);
    assert(list[2] == Column::CurrentA);
    assert(list[3] == Column::PowerW);
    if include_usb_fields {
        assert(list[4] == Column::DpV);
        assert(list[5] == Column::DnV);
        assert(list[6] == Column::TempC);
        assert(list[7] == Column::RawVoltage);
        assert(list[8] == Column::RawCurrent);
    }
}

/// The objects in the text of a file: the lines that are not blank.
pub open spec fn objects_in(file: Seq<char>) -> Seq<Seq<char>> {
    text::lines(file).filter(|line: Seq<char>| !text::blank(line))
}

/// The objects in the text of a JSON Lines file, in order: each stands on a
/// line of its own, and blank lines are skipped.
pub fn read_jsonl(file: &str) -> (r: Vec<String>)
    ensures
        text::texts(r@) == objects_in(file@),
{
    let ghost all = text::lines(file@);
    let ghost keep = |line: Seq<char>| !text::blank(line);
    let lines = text::lines_of(file);
    let ghost given = lines@;
    let mut objects: Vec<String> = Vec::new();
    proof {
        reveal(Seq::filter);
        assert(text::texts(objects@) =~= all.subrange(0, 0).filter(keep));
    }
    for line in it: lines
        invariant
            it.seq() == given,
            all == text::texts(given),
            keep == (|line: Seq<char>| !text::blank(line)),
            text::texts(objects@) == all.subrange(0, it.index() as int).filter(keep),
    {
        let ghost done = it.index() as int;
        let ghost before = objects@;
        proof {
            reveal(Seq::filter);
            assert(all.subrange(0, done + 1).drop_last() =~= all.subrange(0, done));
            assert(all.subrange(0, done + 1).last() == line@);
        }
        if !text::is_blank(line.as_str()) {
            objects.push(line);
            assert(text::texts(objects@) =~= text::texts(before).push(line@));
        }
    }
    assert(all.subrange(0, all.len() as int) =~= all);
    objects
}

/// The objects of a file, each on a line of its own.
pub open spec fn framed(objects: Seq<String>) -> Seq<char>
    decreases objects.len(),
{
    if objects.len() == 0 {
        Seq::empty()
    } else {
        framed(objects.drop_last()) + objects.last()@ + "\n"@
    }
}

/// The objects of a file, each on a line of its own.
pub fn write_jsonl(objects: &Vec<String>) -> (r: String)
    ensures
        r@ == framed(objects@),
{
    let mut out = String::new();
    let mut i: usize = 0;
    while i < objects.len()
        invariant
            i <= objects@.len(),
            out@ == framed(objects@.subrange(0, i as int)),
        decreases objects@.len() - i,
    {
        proof {
            let next = objects@.subrange(0, i + 1);
            assert(next.drop_last() =~= objects@.subrange(0, i as int));
            assert(next.last() == objects@[i as int]);
        }
        out.append(objects[i].as_str());
        out.append("\n");
        i = i + 1;
    }
    assert(objects@.subrange(0, i as int) =~= objects@);
    out
}

/// Whether a text can stand as an object on a line of its own: it is not
/// blank, has no line feed, and does not end with a carriage return.
pub open spec fn one_line(object: Seq<char>) -> bool {
    &&& !text::blank(object)
    &&& !object.contains('\n')
    &&& object.last() != '\r'
}

proof fn text_stays_on_its_line(before: Seq<char>, object: Seq<char>)
    requires
        !object.contains('\n'),
        text::split_lines(before).1 == Seq::<char>::empty(),
    ensures
        text::split_lines(before + object) == (text::split_lines(before).0, object),
    decreases object.len(),
{
    if object.len() == 0 {
        assert(before + object =~= before);
    } else {
        let init = object.drop_last();
        assert(object.contains(object.last()));
        assert forall|c: char| init.contains(c) implies #[trigger] object.contains(c) by {
            let i = choose|i: int| 0 <= i < init.len() && init[i] == c;
            assert(object[i] == c);
        }
        text_stays_on_its_line(before, init);
        assert((before + object).drop_last() =~= before + init);
        assert(init.push(object.last()) =~= object);
    }
}

proof fn framed_objects_are_the_lines(objects: Seq<String>)
    requires
        forall|i: int| 0 <= i < objects.len() ==> one_line((#[trigger] objects[i])@),
    ensures
        text::split_lines(framed(objects)) == (text::texts(objects), Seq::<char>::empty()),
    decreases objects.len(),
{
    if objects.len() == 0 {
        assert(text::texts(objects) =~= Seq::<Seq<char>>::empty());
    } else {
        let init = objects.drop_last();
        let last = objects.last()@;
        framed_objects_are_the_lines(init);
        assert(one_line(objects[objects.len() - 1]@));
        text_stays_on_its_line(framed(init), last);
        reveal_strlit("\n");
        assert(framed(objects).drop_last() =~= framed(init) + last);
        assert(text::texts(objects) =~= text::texts(init).push(last));
    }
}

/// Framing law: objects that each fit on a line are read back from the file
/// that they were written to, all of them and in order.
pub proof fn written_objects_are_read_back(objects: Seq<String>)
    requires
        forall|i: int| 0 <= i < objects.len() ==> one_line((#[trigger] objects[i])@),
    ensures
        objects_in(framed(objects)) == text::texts(objects),
{
    framed_objects_are_the_lines(objects);
    assert(text::lines(framed(objects)) == text::texts(objects));
    lines_with_text_are_kept(text::texts(objects));
}

proof fn lines_with_text_are_kept(lines: Seq<Seq<char>>)
    requires
        forall|i: int| 0 <= i < lines.len() ==> !text::blank(#[trigger] lines[i]),
    ensures
        lines.filter(|line: Seq<char>| !text::blank(line)) == lines,
    decreases lines.len(),
{
    reveal(Seq::filter);
    if lines.len() > 0 {
        lines_with_text_are_kept(lines.drop_last());
        assert(!text::blank(lines[lines.len() - 1]));
        assert(lines.drop_last().push(lines.last()) =~= lines);
    }
}

/// Column law: what is written in a column is the field of its own name.
pub proof fn columns_hold_their_field(sample: Sample)
    ensures
        entry(sample, Column::TimestampMs) == Value::U64(sample.timestamp_ms),
        entry(sample, Column::VoltageV) == Value::F32(sample.voltage_v),
        entry(sample, Column::CurrentA) == Value::F32(sample.current_a),
        entry(sample, Column::PowerW) == Value::F32(sample.power_w),
        entry(sample, Column::DpV) == Value::F32(sample.dp_v),
        entry(sample, Column::DnV) == Value::F32(sample.dn_v),
        entry(sample, Column::TempC) == Value::F32(sample.temp_c),
        entry(sample, Column::RawVoltage) == Value::U32(sample.raw_voltage),
        entry(sample, Column::RawCurrent) == Value::U32(sample.raw_current),
{
}

/// Column law: the columns of a table are distinct. The first four are the time,
/// the voltage, the current and the power, and the last five, where they are
/// written, the data lines, the temperature and the raw registers.
pub proof fn tables_have_their_columns(include_usb_fields: bool)
    ensures
        ({
            let list = table(include_usb_fields);
            &&& list.len() == if include_usb_fields {
                9int
            } else {
                4int
            }
            &&& list[0] == Column::TimestampMs && list[1] == Column::VoltageV && list[2]
                == Column::CurrentA && list[3] == Column::PowerW
            &&& include_usb_fields ==> list[4] == Column::DpV && list[5] == Column::DnV && list[6]
                == Column::TempC && list[7] == Column::RawVoltage && list[8] == Column::RawCurrent
        }),
        forall|a: Column, b: Column| a != b ==> #[trigger] a.title() != #[trigger] b.title(),
{
    assert forall|a: Column, b: Column| a != b implies #[trigger] a.title()
        != #[trigger] b.title() by {
        titles_are_distinct(a, b);
    }
}

/// The number that a column has in a row, where it has one.
pub open spec fn present(row: Seq<Option<Cell>>, place: Option<int>) -> Option<Cell> {
    if place is Some && 0 <= place->0 < row.len() {
        row[place->0]
    } else {
        None
    }
}

/// Reading law: each field of a sample that is read is the number in the column
/// of its own name, and zero where there is none.
pub proof fn fields_are_read_from_their_column(
    row: Seq<Option<Cell>>,
    place: spec_fn(Column) -> Option<int>,
)
    ensures
        ({
            let sample = gathered(row, place);
            &&& match present(row, place(Column::TimestampMs)) {
                Some(cell) => sample.timestamp_ms == cell.as_u64,
                None => sample.timestamp_ms == 0,
            }
            &&& match present(row, place(Column::VoltageV)) {
                Some(cell) => sample.voltage_v == cell.as_f32,
                None => sample.voltage_v.bits == 0,
            }
            &&& match present(row, place(Column::CurrentA)) {
                Some(cell) => sample.current_a == cell.as_f32,
                None => sample.current_a.bits == 0,
            }
            &&& match present(row, place(Column::PowerW)) {
                Some(cell) => sample.power_w == cell.as_f32,
                None => sample.power_w.bits == 0,
            }
            &&& match present(row, place(Column::DpV)) {
                Some(cell) => sample.dp_v == cell.as_f32,
                None => sample.dp_v.bits == 0,
            }
            &&& match present(row, place(Column::DnV)) {
                Some(cell) => sample.dn_v == cell.as_f32,
                None => sample.dn_v.bits == 0,
            }
            &&& match present(row, place(Column::TempC)) {
                Some(cell) => sample.temp_c == cell.as_f32,
                None => sample.temp_c.bits == 0,
            }
            &&& match present(row, place(Column::RawVoltage)) {
                Some(cell) => sample.raw_voltage == cell.as_u32,
                None => sample.raw_voltage == 0,
            }
            &&& match present(row, place(Column::RawCurrent)) {
                Some(cell) => sample.raw_current == cell.as_u32,
                None => sample.raw_current == 0,
            }
        }),
{
}

/// Reading law: of the columns of one name the last is found, or the first,
/// whichever is asked for; none is found exactly where the header has none.
pub proof fn columns_are_found_by_name(header: Seq<Option<String>>, name: Seq<char>)
    ensures
        match last_place(header, name) {
            Some(i) => {
                &&& 0 <= i < header.len()
                &&& header[i] is Some && header[i]->0@ == name
                &&& forall|j: int|
                    i < j < header.len() ==> !((#[trigger] header[j]) is Some && header[j]->0@
                        == name)
            },
            None => forall|j: int|
                0 <= j < header.len() ==> !((#[trigger] header[j]) is Some && header[j]->0@ == name),
        },
        match first_place(header, name) {
            Some(i) => {
                &&& 0 <= i < header.len()
                &&& header[i] is Some && header[i]->0@ == name
                &&& forall|j: int|
                    0 <= j < i ==> !((#[trigger] header[j]) is Some && header[j]->0@ == name)
            },
            None => forall|j: int|
                0 <= j < header.len() ==> !((#[trigger] header[j]) is Some && header[j]->0@ == name),
        },
    decreases header.len(),
{
    if header.len() > 0 {
        let init = header.drop_last();
        columns_are_found_by_name(init, name);
        assert(header[header.len() - 1] == header.last());
        assert(forall|j: int| 0 <= j < init.len() ==> #[trigger] header[j] == init[j]);
    }
}

/// Framing law: what is written for objects is what is written for the first of
/// them, then for the others, and one object is written as itself and a line
/// feed.
pub proof fn objects_are_written_one_by_one(a: Seq<String>, b: Seq<String>)
    ensures
        framed(a + b) == framed(a) + framed(b),
        a.len() == 1 ==> framed(a) == a[0]@.push('\n'),
        a.len() == 0 ==> framed(a) == Seq::<char>::empty(),
    decreases b.len(),
{
    reveal_strlit("\n");
    if b.len() == 0 {
        assert(a + b =~= a);
        assert(framed(a) + framed(b) =~= framed(a));
    } else {
        objects_are_written_one_by_one(a, b.drop_last());
        assert((a + b).drop_last() =~= a + b.drop_last());
        assert((a + b).last() == b.last());
        assert(framed(a + b) =~= framed(a) + framed(b));
    }
    if a.len() == 1 {
        assert(framed(a.drop_last()) =~= Seq::<char>::empty());
        assert(framed(a) =~= a[0]@.push('\n'));
    }
}

/// Framing law: a line of a file is an object, without the carriage return that
/// it may end with, unless it is blank; the lines before and behind it are read
/// as if they stood alone.
pub proof fn lines_are_read_one_by_one(before: Seq<char>, line: Seq<char>, after: Seq<char>)
    requires
        before.len() == 0 || before.last() == '\n',
        !line.contains('\n'),
    ensures
        ({
            let object = if line.len() > 0 && line.last() == '\r' {
                line.drop_last()
            } else {
                line
            };
            objects_in(before + line.push('\n') + after) == if text::blank(object) {
                objects_in(before) + objects_in(after)
            } else {
                objects_in(before).push(object) + objects_in(after)
            }
        }),
{
    let object = if line.len() > 0 && line.last() == '\r' {
        line.drop_last()
    } else {
        line
    };
    let keep = |line: Seq<char>| !text::blank(line);
    text::lines_follow_one_another(before, line, after);
    Seq::filter_distributes_over_add(text::lines(before).push(object), text::lines(after), keep);
    reveal(Seq::filter);
    assert(text::lines(before).push(object).drop_last() =~= text::lines(before));
}

} // verus!
