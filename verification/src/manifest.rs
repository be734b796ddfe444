//! The dataset manifest: observations and their partition into splits.
//!
//! A manifest is a table. Its first row names the columns; every later row
//! describes one image: an identifier, the image file, the label and the split.

use vstd::prelude::*;
use vstd::string::*;
use crate::text::{decimal, decimal_digits, text_eq};

verus! {

/// The part of the dataset an observation belongs to.
#[derive(Clone, Copy, Debug, PartialEq, Eq, Structural)]
pub enum Split {
    Train,
    Test,
    Valid,
}

/// One labelled image of the manifest.
#[derive(Clone, Debug)]
pub struct Observation {
    /// Identifier carried over from the manifest; the library never reads it.
    pub class_id: String,
    /// Path of the image file, resolved against the base directory.
    pub filepath: String,
    /// The label, as written in the manifest.
    pub label: String,
    /// The split the manifest assigns the observation to.
    pub split: Split,
}

/// What an [`Observation`] holds, as mathematical values.
pub ghost struct ObservationView {
    pub class_id: Seq<char>,
    pub filepath: Seq<char>,
    pub label: Seq<char>,
    pub split: Split,
}

impl View for Observation {
    type V = ObservationView;

    open spec fn view(&self) -> ObservationView {
        ObservationView {
            class_id: self.class_id@,
            filepath: self.filepath@,
            label: self.label@,
            split: self.split,
        }
    }
}

impl DeepView for Observation {
    type V = ObservationView;

    open spec fn deep_view(&self) -> ObservationView {
        self.view()
    }
}

/// The observations of a manifest, one ordered list per split.
#[derive(Debug)]
pub struct Observations {
    pub train: Vec<Observation>,
    pub test: Vec<Observation>,
    pub valid: Vec<Observation>,
}

/// What [`Observations`] holds, as mathematical values.
pub ghost struct ObservationsView {
    pub train: Seq<ObservationView>,
    pub test: Seq<ObservationView>,
    pub valid: Seq<ObservationView>,
}

impl Observations {
    /// What [`Observations::summary`] writes.
    pub open spec fn spec_summary(self) -> Seq<char> {
        "Observations [ train: "@ + decimal_digits(self.train@.len()) + ", test: "@
            + decimal_digits(self.test@.len()) + ", valid: "@ + decimal_digits(self.valid@.len())
            + " ]"@
    }

    /// One line that says how many observations each split holds.
    pub fn summary(&self) -> (line: String)
        ensures
            line@ == self.spec_summary(),
    {
        let mut line = "Observations [ train: ".to_owned();
        line.append(decimal(self.train.len()).as_str());
        line.append(", test: ");
        line.append(decimal(self.test.len()).as_str());
        line.append(", valid: ");
        line.append(decimal(self.valid.len()).as_str());
        line.append(" ]");
        line
    }
}

impl View for Observations {
    type V = ObservationsView;

    open spec fn view(&self) -> ObservationsView {
        ObservationsView {
            train: self.train.deep_view(),
            test: self.test.deep_view(),
            valid: self.valid.deep_view(),
        }
    }
}

/// The columns that a manifest must name.
#[derive(Clone, Copy, Debug, PartialEq, Eq, Structural)]
pub enum Column {
    ClassId,
    Filepaths,
    Labels,
    DataSet,
}

/// Why a manifest could not be indexed.
#[derive(Debug)]
pub enum IndexError {
    /// The manifest has no first row, or it could not be read.
    NoHeader,
    /// The first row does not name `column`.
    MissingColumn { column: Column },
    /// The first row names `column` more than once.
    DuplicateColumn { column: Column },
    /// Row `row` could not be read, or is too short to hold every column.
    Malformed { row: usize },
    /// Row `row` names a split other than `train`, `test` and `valid`.
    UnknownSplit { row: usize, token: String },
}

impl IndexError {
    /// Says what went wrong, for a reader.
    pub fn message(&self) -> (text: String)
        ensures
            text@ == fault_message(self@),
    {
        match self {
            IndexError::NoHeader => "the manifest has no header".to_owned(),
            IndexError::MissingColumn { column } => {
                let mut text = "missing column: ".to_owned();
                text.append(column.name());
                text
            },
            IndexError::DuplicateColumn { column } => {
                let mut text = "duplicate column: ".to_owned();
                text.append(column.name());
                text
            },
            IndexError::Malformed { row } => {
                let mut text = "malformed row: ".to_owned();
                text.append(decimal(*row).as_str());
                text
            },
            IndexError::UnknownSplit { token, .. } => {
                let mut text = "unknown data set: ".to_owned();
                text.append(token.as_str());
                text
            },
        }
    }
}

impl Column {
    /// The name under which the first row of a manifest lists the column.
    pub fn name(&self) -> (name: &'static str)
        ensures
            name@ == column_name(*self),
    {
        match self {
            Column::ClassId => "class id",
            Column::Filepaths => "filepaths",
            Column::Labels => "labels",
            Column::DataSet => "data set",
        }
    }
}

/// The words that say what went wrong. An unknown split is reported as
/// `unknown data set: ` and the token.
pub open spec fn fault_message(fault: IndexFault) -> Seq<char> {
    match fault {
        IndexFault::NoHeader => "the manifest has no header"@,
        IndexFault::MissingColumn { column } => "missing column: "@ + column_name(column),
        IndexFault::DuplicateColumn { column } => "duplicate column: "@ + column_name(column),
        IndexFault::Malformed { row } => "malformed row: "@ + decimal_digits(row as nat),
        IndexFault::UnknownSplit { row, token } => "unknown data set: "@ + token,
    }
}

/// What an [`IndexError`] holds, as mathematical values.
pub ghost enum IndexFault {
    NoHeader,
    MissingColumn { column: Column },
    DuplicateColumn { column: Column },
    Malformed { row: int },
    UnknownSplit { row: int, token: Seq<char> },
}

impl View for IndexError {
    type V = IndexFault;

    open spec fn view(&self) -> IndexFault {
        match self {
            IndexError::NoHeader => IndexFault::NoHeader,
            IndexError::MissingColumn { column } => IndexFault::MissingColumn { column: *column },
            IndexError::DuplicateColumn { column } => IndexFault::DuplicateColumn {
                column: *column,
            },
            IndexError::Malformed { row } => IndexFault::Malformed { row: *row as int },
            IndexError::UnknownSplit { row, token } => IndexFault::UnknownSplit {
                row: *row as int,
                token: token@,
            },
        }
    }
}

/// The rows of a table: each row its fields, or `None` where the row could
/// not be read.
pub type Rows = Seq<Option<Seq<Seq<char>>>>;

/// Where the first row names each column.
pub ghost struct Columns {
    pub class_id: int,
    pub filepaths: int,
    pub labels: int,
    pub data_set: int,
}

/// The split that a token names.
pub open spec fn spec_parse_split(token: Seq<char>) -> Option<Split> {
    if token == "train"@ {
        Some(Split::Train)
    } else if token == "test"@ {
        Some(Split::Test)
    } else if token == "valid"@ {
        Some(Split::Valid)
    } else {
        None
    }
}

/// The path of `file` relative to the directory `base`: `file` itself where it
/// starts at the root, else `base` and `file` with one `/` between them
/// (none where `base` is empty or ends in one).
pub open spec fn spec_resolve(base: Seq<char>, file: Seq<char>) -> Seq<char> {
    if file.len() > 0 && file[0] == '/' {
        file
    } else if base.len() == 0 || base.last() == '/' {
        base + file
    } else {
        base + seq!['/'] + file
    }
}

/// The name under which the first row lists a column.
pub open spec fn column_name(column: Column) -> Seq<char> {
    match column {
        Column::ClassId => "class id"@,
        Column::Filepaths => "filepaths"@,
        Column::Labels => "labels"@,
        Column::DataSet => "data set"@,
    }
}

/// The header holds `name` at two positions.
pub open spec fn repeated(header: Seq<Seq<char>>, name: Seq<char>) -> bool {
    exists|i: int, j: int|
        0 <= i < j < header.len() && #[trigger] header[i] == name && #[trigger] header[j] == name
}

/// What is wrong with a column of the header, if anything.
pub open spec fn column_fault(header: Seq<Seq<char>>, column: Column) -> Option<IndexFault> {
    if !header.contains(column_name(column)) {
        Some(IndexFault::MissingColumn { column })
    } else if repeated(header, column_name(column)) {
        Some(IndexFault::DuplicateColumn { column })
    } else {
        None
    }
}

/// The positions of the four columns, or the fault of the first column, in
/// the order of [`Column`], that has one.
pub open spec fn header_columns(header: Seq<Seq<char>>) -> Result<Columns, IndexFault> {
    if let Some(fault) = column_fault(header, Column::ClassId) {
        Err(fault)
    } else if let Some(fault) = column_fault(header, Column::Filepaths) {
        Err(fault)
    } else if let Some(fault) = column_fault(header, Column::Labels) {
        Err(fault)
    } else if let Some(fault) = column_fault(header, Column::DataSet) {
        Err(fault)
    } else {
        Ok(
            Columns {
                class_id: header.index_of(column_name(Column::ClassId)),
                filepaths: header.index_of(column_name(Column::Filepaths)),
                labels: header.index_of(column_name(Column::Labels)),
                data_set: header.index_of(column_name(Column::DataSet)),
            },
        )
    }
}

/// Whether a row is long enough to hold every column.
pub open spec fn holds_columns(fields: Seq<Seq<char>>, columns: Columns) -> bool {
    &&& columns.class_id < fields.len()
    &&& columns.filepaths < fields.len()
    &&& columns.labels < fields.len()
    &&& columns.data_set < fields.len()
}

/// The observation that row `row` describes, or why it describes none.
pub open spec fn row_observation(base: Seq<char>, columns: Columns, rows: Rows, row: int) -> Result<
    ObservationView,
    IndexFault,
> {
    match rows[row] {
        None => Err(IndexFault::Malformed { row }),
        Some(fields) => if !holds_columns(fields, columns) {
            Err(IndexFault::Malformed { row })
        } else {
            match spec_parse_split(fields[columns.data_set]) {
                None => Err(IndexFault::UnknownSplit { row, token: fields[columns.data_set] }),
                Some(split) => Ok(
                    ObservationView {
                        class_id: fields[columns.class_id],
                        filepath: spec_resolve(base, fields[columns.filepaths]),
                        label: fields[columns.labels],
                        split,
                    },
                ),
            }
        },
    }
}

/// The observations of rows `1` to `last`, in order, or the fault of the
/// first of these rows that has one.
pub open spec fn scan_rows(base: Seq<char>, columns: Columns, rows: Rows, last: nat) -> Result<
    Seq<ObservationView>,
    IndexFault,
>
    decreases last,
{
    if last == 0 {
        Ok(Seq::empty())
    } else {
        match scan_rows(base, columns, rows, (last - 1) as nat) {
            Err(fault) => Err(fault),
            Ok(found) => match row_observation(base, columns, rows, last as int) {
                Err(fault) => Err(fault),
                Ok(observation) => Ok(found.push(observation)),
            },
        }
    }
}

/// The observations of `all` that belong to `split`, in order.
pub open spec fn in_split(all: Seq<ObservationView>, split: Split) -> Seq<ObservationView> {
    all.filter(|o: ObservationView| o.split == split)
}

/// What indexing a table gives: the observations of its rows, partitioned by
/// split, or the first fault. The header is examined before any other row.
pub open spec fn index_spec(base: Seq<char>, rows: Rows) -> Result<ObservationsView, IndexFault> {
    if rows.len() == 0 || rows[0] is None {
        Err(IndexFault::NoHeader)
    } else {
        match header_columns(rows[0]->0) {
            Err(fault) => Err(fault),
            Ok(columns) => match scan_rows(base, columns, rows, (rows.len() - 1) as nat) {
                Err(fault) => Err(fault),
                Ok(all) => Ok(
                    ObservationsView {
                        train: in_split(all, Split::Train),
                        test: in_split(all, Split::Test),
                        valid: in_split(all, Split::Valid),
                    },
                ),
            },
        }
    }
}

/// Whether a result of indexing is the one that [`index_spec`] gives.
pub open spec fn indexes(base: Seq<char>, rows: Rows, r: Result<Observations, IndexError>) -> bool {
    match r {
        Ok(observations) => index_spec(base, rows) == Ok::<ObservationsView, IndexFault>(
            observations@,
        ),
        Err(e) => index_spec(base, rows) == Err::<ObservationsView, IndexFault>(e@),
    }
}

/// Whether three lists partition `total` observations by split: together
/// they hold that many, and each holds observations of its own split only.
pub open spec fn partitions(observations: ObservationsView, total: int) -> bool {
    &&& observations.train.len() + observations.test.len() + observations.valid.len() == total
    &&& forall|i: int|
        0 <= i < observations.train.len() ==> (#[trigger] observations.train[i]).split
            == Split::Train
    &&& forall|i: int|
        0 <= i < observations.test.len() ==> (#[trigger] observations.test[i]).split
            == Split::Test
    &&& forall|i: int|
        0 <= i < observations.valid.len() ==> (#[trigger] observations.valid[i]).split
            == Split::Valid
}

/// Every observation belongs to exactly one split: the three parts of a list
/// of observations are as long together as the list, and each holds the
/// observations of its own split only.
pub proof fn lemma_splits_partition(all: Seq<ObservationView>)
    ensures
        in_split(all, Split::Train).len() + in_split(all, Split::Test).len() + in_split(
            all,
            Split::Valid,
        ).len() == all.len(),
        forall|split: Split, i: int|
            0 <= i < in_split(all, split).len() ==> (#[trigger] in_split(all, split)[i]).split
                == split,
    decreases all.len(),
{
    reveal(Seq::filter);
    if all.len() > 0 {
        let rest = all.drop_last();
        lemma_splits_partition(rest);
        assert(rest.push(all.last()) =~= all);
        rest.lemma_filter_push(all.last(), |o: ObservationView| o.split == Split::Train);
        rest.lemma_filter_push(all.last(), |o: ObservationView| o.split == Split::Test);
        rest.lemma_filter_push(all.last(), |o: ObservationView| o.split == Split::Valid);
    }
    assert forall|split: Split, i: int| 0 <= i < in_split(all, split).len() implies (
    #[trigger] in_split(all, split)[i]).split == split by {
        all.lemma_filter_pred(|o: ObservationView| o.split == split, i);
    }
}

/// A scan that finds no fault gives one observation for each row.
proof fn lemma_scan_length(base: Seq<char>, columns: Columns, rows: Rows, last: nat)
    requires
        scan_rows(base, columns, rows, last) is Ok,
    ensures
        scan_rows(base, columns, rows, last)->Ok_0.len() == last,
    decreases last,
{
    if last > 0 {
        lemma_scan_length(base, columns, rows, (last - 1) as nat);
    }
}

/// Whatever manifest is indexed without a fault, every row after the first
/// is assigned to exactly one split: the three lists hold one observation
/// for each such row between them, each list those of its own split.
pub proof fn lemma_index_partitions(base: Seq<char>, rows: Rows)
    requires
        index_spec(base, rows) is Ok,
    ensures
        partitions(index_spec(base, rows)->Ok_0, rows.len() - 1),
{
    let columns = header_columns(rows[0]->0)->Ok_0;
    let last = (rows.len() - 1) as nat;
    lemma_scan_length(base, columns, rows, last);
    lemma_splits_partition(scan_rows(base, columns, rows, last)->Ok_0);
}

/// Reads a split token: `train`, `test` or `valid`, written exactly so.
pub fn parse_split(token: &str) -> (split: Option<Split>)
    ensures
        split == spec_parse_split(token@),
{
    if text_eq(token, "train") {
        Some(Split::Train)
    } else if text_eq(token, "test") {
        Some(Split::Test)
    } else if text_eq(token, "valid") {
        Some(Split::Valid)
    } else {
        None
    }
}

/// Resolves the path of an image file against the base directory.
pub fn resolve_path(base: &str, file: &str) -> (path: String)
    ensures
        path@ == spec_resolve(base@, file@),
{
    if !file.is_empty() && file.get_char(0) == '/' {
        return file.to_owned();
    }
    let mut path = base.to_owned();
    let n = base.unicode_len();
    if n > 0 && base.get_char(n - 1) != '/' {
        proof {
            reveal_strlit("/");
            assert("/"@ =~= seq!['/']);
        }
        path.append("/");
    }
    path.append(file);
    path
}

/// The rows of a table in comma-separated form, as the `csv` crate reads
/// them: one entry per record, the first row included, `None` for a record
/// that the reader rejects.
pub uninterp spec fn csv_rows(data: Seq<u8>) -> Rows;

/// Reads every record of `data` with a `csv::Reader` in its default
/// configuration, but that the first row is handed out like the others
/// (`csv::ReaderBuilder::from_reader`, `csv::Reader::records`).
///
/// Nothing is claimed of how the reader splits the bytes: the rows are
/// [`csv_rows`] of the data.
#[verifier::external_body]
fn read_rows(data: &[u8]) -> (rows: Vec<Option<Vec<String>>>)
    ensures
        rows.deep_view() == csv_rows(data@),
{
    let mut reader = csv::ReaderBuilder::new().has_headers(false).from_reader(data);
    reader.records().map(|r| r.ok().map(|record| record.iter().map(String::from).collect())).collect()
}

/// Where the header names a column.
enum Lookup {
    At(usize),
    Missing,
    Duplicate,
}

/// Finds the one position at which `header` holds `name`.
fn find_column(header: &Vec<String>, name: &str) -> (r: Lookup)
    ensures
        match r {
            Lookup::At(i) => {
                &&& i < header.len()
                &&& header.deep_view().contains(name@)
                &&& !repeated(header.deep_view(), name@)
                &&& i == header.deep_view().index_of(name@)
            },
            Lookup::Missing => !header.deep_view().contains(name@),
            Lookup::Duplicate => header.deep_view().contains(name@) && repeated(
                header.deep_view(),
                name@,
            ),
        },
{
    let ghost names = header.deep_view();
    let mut found: Option<usize> = None;
    let mut i: usize = 0;
    while i < header.len()
        invariant
            i <= header.len(),
            names == header.deep_view(),
            found is None ==> forall|j: int| 0 <= j < i ==> names[j] != name@,
            found matches Some(at) ==> at < i && names[at as int] == name@ && forall|j: int|
                0 <= j < i && j != at ==> names[j] != name@,
        decreases header.len() - i,
    {
        assert(names[i as int] == header[i as int]@);
        if text_eq(header[i].as_str(), name) {
            match found {
                Some(at) => {
                    assert(repeated(names, name@)) by {
                        assert(names[at as int] == name@ && names[i as int] == name@);
                    }
                    assert(names.contains(name@));
                    return Lookup::Duplicate;
                },
                None => {
                    found = Some(i);
                },
            }
        }
        i += 1;
    }
    match found {
        Some(at) => {
            proof {
                assert(names[at as int] == name@);
                assert(names.contains(name@));
                let k = names.index_of(name@);
                assert(0 <= k < names.len() && names[k] == name@);
            }
            Lookup::At(at)
        },
        None => Lookup::Missing,
    }
}

/// The positions of the four columns in a header.
struct ColumnIndex {
    class_id: usize,
    filepaths: usize,
    labels: usize,
    data_set: usize,
}

impl View for ColumnIndex {
    type V = Columns;

    closed spec fn view(&self) -> Columns {
        Columns {
            class_id: self.class_id as int,
            filepaths: self.filepaths as int,
            labels: self.labels as int,
            data_set: self.data_set as int,
        }
    }
}

/// Finds one column of the header, or says what is wrong with it.
fn locate_column(header: &Vec<String>, column: Column) -> (r: Result<usize, IndexError>)
    ensures
        match r {
            Ok(i) => column_fault(header.deep_view(), column) is None && i
                == header.deep_view().index_of(column_name(column)),
            Err(e) => column_fault(header.deep_view(), column) == Some(e@),
        },
{
    match find_column(header, column.name()) {
        Lookup::At(i) => Ok(i),
        Lookup::Missing => Err(IndexError::MissingColumn { column }),
        Lookup::Duplicate => Err(IndexError::DuplicateColumn { column }),
    }
}

/// Finds the four columns of a header.
fn locate_columns(header: &Vec<String>) -> (r: Result<ColumnIndex, IndexError>)
    ensures
        match r {
            Ok(columns) => header_columns(header.deep_view()) == Ok::<Columns, IndexFault>(
                columns@,
            ),
            Err(e) => header_columns(header.deep_view()) == Err::<Columns, IndexFault>(e@),
        },
{
    let class_id = match locate_column(header, Column::ClassId) {
        Ok(i) => i,
        Err(e) => {
            return Err(e);
        },
    };
    let filepaths = match locate_column(header, Column::Filepaths) {
        Ok(i) => i,
        Err(e) => {
            return Err(e);
        },
    };
    let labels = match locate_column(header, Column::Labels) {
        Ok(i) => i,
        Err(e) => {
            return Err(e);
        },
    };
    let data_set = match locate_column(header, Column::DataSet) {
        Ok(i) => i,
        Err(e) => {
            return Err(e);
        },
    };
    Ok(ColumnIndex { class_id, filepaths, labels, data_set })
}

/// Reads the observation of one row.
fn read_row(base: &str, columns: &ColumnIndex, rows: &Vec<Option<Vec<String>>>, row: usize) -> (r:
    Result<Observation, IndexError>)
    requires
        row < rows.len(),
    ensures
        match r {
            Ok(observation) => row_observation(base@, columns@, rows.deep_view(), row as int)
                == Ok::<ObservationView, IndexFault>(observation@),
            Err(e) => row_observation(base@, columns@, rows.deep_view(), row as int) == Err::<
                ObservationView,
                IndexFault,
            >(e@),
        },
{
    assert(rows.deep_view()[row as int] == rows[row as int].deep_view());
    match &rows[row] {
        None => Err(IndexError::Malformed { row }),
        Some(fields) => {
            let n = fields.len();
            if columns.class_id >= n || columns.filepaths >= n || columns.labels >= n
                || columns.data_set >= n {
                return Err(IndexError::Malformed { row });
            }
            proof {
                let view = fields.deep_view();
                assert(view[columns.class_id as int] == fields[columns.class_id as int]@);
                assert(view[columns.filepaths as int] == fields[columns.filepaths as int]@);
                assert(view[columns.labels as int] == fields[columns.labels as int]@);
                assert(view[columns.data_set as int] == fields[columns.data_set as int]@);
            }
            match parse_split(fields[columns.data_set].as_str()) {
                None => Err(
                    IndexError::UnknownSplit { row, token: fields[columns.data_set].clone() },
                ),
                Some(split) => Ok(
                    Observation {
                        class_id: fields[columns.class_id].clone(),
                        filepath: resolve_path(base, fields[columns.filepaths].as_str()),
                        label: fields[columns.labels].clone(),
                        split,
                    },
                ),
            }
        },
    }
}

/// Indexes the rows of a manifest: the first row names the columns, each
/// later row becomes one observation of the split it names.
///
/// Indexing stops at the first fault; no observation is handed out then.
pub fn index_rows(base: &str, rows: &Vec<Option<Vec<String>>>) -> (r: Result<
    Observations,
    IndexError,
>)
    ensures
        indexes(base@, rows.deep_view(), r),
        r matches Ok(observations) ==> partitions(observations@, rows.len() - 1),
{
    let ghost table = rows.deep_view();
    if rows.len() == 0 {
        return Err(IndexError::NoHeader);
    }
    assert(table[0] == rows[0].deep_view());
    let columns = match &rows[0] {
        None => {
            return Err(IndexError::NoHeader);
        },
        Some(header) => match locate_columns(header) {
            Ok(columns) => columns,
            Err(e) => {
                return Err(e);
            },
        },
    };
    let mut train: Vec<Observation> = Vec::new();
    let mut test: Vec<Observation> = Vec::new();
    let mut valid: Vec<Observation> = Vec::new();
    let ghost mut all: Seq<ObservationView> = Seq::empty();
    proof {
        reveal(Seq::filter);
        assert(train.deep_view() =~= in_split(all, Split::Train));
        assert(test.deep_view() =~= in_split(all, Split::Test));
        assert(valid.deep_view() =~= in_split(all, Split::Valid));
    }
    let mut row: usize = 1;
    while row < rows.len()
        invariant
            1 <= row <= rows.len(),
            table == rows.deep_view(),
            table.len() == rows.len(),
            table[0] is Some,
            header_columns(table[0]->0) == Ok::<Columns, IndexFault>(columns@),
            scan_rows(base@, columns@, table, (row - 1) as nat) == Ok::<
                Seq<ObservationView>,
                IndexFault,
            >(all),
            all.len() == row - 1,
            train.deep_view() == in_split(all, Split::Train),
            test.deep_view() == in_split(all, Split::Test),
            valid.deep_view() == in_split(all, Split::Valid),
        decreases rows.len() - row,
    {
        match read_row(base, &columns, rows, row) {
            Err(e) => {
                proof {
                    lemma_scan_fault(base@, columns@, table, row as nat, (rows.len() - 1) as nat);
                }
                return Err(e);
            },
            Ok(observation) => {
                proof {
                    all.lemma_filter_push(
                        observation@,
                        |o: ObservationView| o.split == Split::Train,
                    );
                    all.lemma_filter_push(observation@, |o: ObservationView| o.split == Split::Test);
                    all.lemma_filter_push(
                        observation@,
                        |o: ObservationView| o.split == Split::Valid,
                    );
                }
                let ghost pushed = observation@;
                let ghost before_train = train.deep_view();
                let ghost before_test = test.deep_view();
                let ghost before_valid = valid.deep_view();
                match observation.split {
                    Split::Train => {
                        train.push(observation);
                        assert(train.deep_view() =~= before_train.push(pushed));
                    },
                    Split::Test => {
                        test.push(observation);
                        assert(test.deep_view() =~= before_test.push(pushed));
                    },
                    Split::Valid => {
                        valid.push(observation);
                        assert(valid.deep_view() =~= before_valid.push(pushed));
                    },
                }
                proof {
                    all = all.push(pushed);
                }
            },
        }
        row += 1;
    }
    proof {
        lemma_splits_partition(all);
        assert forall|i: int| 0 <= i < train.len() implies (#[trigger] train.deep_view()[i]).split
            == Split::Train by {
            assert(in_split(all, Split::Train)[i].split == Split::Train);
        }
        assert forall|i: int| 0 <= i < test.len() implies (#[trigger] test.deep_view()[i]).split
            == Split::Test by {
            assert(in_split(all, Split::Test)[i].split == Split::Test);
        }
        assert forall|i: int| 0 <= i < valid.len() implies (#[trigger] valid.deep_view()[i]).split
            == Split::Valid by {
            assert(in_split(all, Split::Valid)[i].split == Split::Valid);
        }
    }
    Ok(Observations { train, test, valid })
}

/// A fault in row `row` is the fault of every scan that reaches that row,
/// when the rows before it have none.
proof fn lemma_scan_fault(base: Seq<char>, columns: Columns, rows: Rows, row: nat, last: nat)
    requires
        1 <= row <= last,
        scan_rows(base, columns, rows, (row - 1) as nat) is Ok,
        row_observation(base, columns, rows, row as int) is Err,
    ensures
        scan_rows(base, columns, rows, last) == Err::<Seq<ObservationView>, IndexFault>(
            row_observation(base, columns, rows, row as int)->Err_0,
        ),
    decreases last,
{
    if last > row {
        lemma_scan_fault(base, columns, rows, row, (last - 1) as nat);
    }
}

/// Indexes a manifest given as the bytes of a comma-separated table.
///
/// `data` is the directory against which the image files are resolved,
/// `index` the content of the manifest.
pub fn index_observations(data: &str, index: &[u8]) -> (r: Result<Observations, IndexError>)
    ensures
        indexes(data@, csv_rows(index@), r),
        r matches Ok(observations) ==> partitions(observations@, csv_rows(index@).len() - 1),
{
    let rows = read_rows(index);
    index_rows(data, &rows)
}

} // verus!
