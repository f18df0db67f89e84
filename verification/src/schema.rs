//! The type-inference engine: samples a bounded window of already-parsed
//! rows per column and classifies each column's data type and nullability.

use vstd::prelude::*;
use crate::literals::is_bool_literal;
use crate::literals::is_float_literal;
use crate::literals::is_float_text;
use crate::literals::is_i64_literal;
use crate::literals::parse_bool;
use crate::literals::parse_i64;
use crate::segment::strings_view;

verus! {

/// How many leading rows the inference window samples; rows beyond it never
/// influence inference.
pub const PEEK_ROWS: usize = 30;

/// A column's inferred data type.
#[derive(Clone, Copy, PartialEq, Eq, Structural, Debug)]
pub enum DataType {
    Int64,
    Float64,
    Boolean,
    Utf8,
}

/// An inferred field: a column name with its data type and nullability.
pub struct Field {
    pub name: String,
    pub data_type: DataType,
    pub nullable: bool,
}

/// The type a single non-empty cell classifies as: Integer when it is a
/// signed 64-bit integer literal, else Float when it is a floating-point
/// literal, else Boolean when it is a boolean literal, else String.
pub open spec fn spec_classify(s: Seq<char>) -> DataType {
    if is_i64_literal(s) {
        DataType::Int64
    } else if is_float_literal(s) {
        DataType::Float64
    } else if is_bool_literal(s) {
        DataType::Boolean
    } else {
        DataType::Utf8
    }
}

/// Whether some non-empty cell of the sample classifies as `dt`.
pub open spec fn sees(cells: Seq<Seq<char>>, dt: DataType) -> bool {
    exists|k: int|
        0 <= k < cells.len() && (#[trigger] cells[k]).len() > 0 && spec_classify(cells[k]) == dt
}

/// Whether the sample marks the column nullable: some sampled cell is
/// empty. Nullability is independent of the type decision.
pub open spec fn spec_nullable(cells: Seq<Seq<char>>) -> bool {
    exists|k: int| 0 <= k < cells.len() && (#[trigger] cells[k]).len() == 0
}

/// The unified type of a column's sample: the single classified type when
/// exactly one distinct type was seen; Float for exactly Integer and Float
/// (type promotion); String for every other combination, and for a column
/// with no non-empty sample at all.
pub open spec fn spec_unified(cells: Seq<Seq<char>>) -> DataType {
    let i = sees(cells, DataType::Int64);
    let f = sees(cells, DataType::Float64);
    let b = sees(cells, DataType::Boolean);
    let u = sees(cells, DataType::Utf8);
    if i && !f && !b && !u {
        DataType::Int64
    } else if f && !i && !b && !u {
        DataType::Float64
    } else if b && !i && !f && !u {
        DataType::Boolean
    } else if u && !i && !f && !b {
        DataType::Utf8
    } else if i && f && !b && !u {
        DataType::Float64
    } else {
        DataType::Utf8
    }
}

/// The view of a cell matrix.
pub open spec fn rows_view(rows: Seq<Vec<String>>) -> Seq<Seq<Seq<char>>> {
    rows.map_values(|r: Vec<String>| strings_view(r@))
}

/// Column `j`'s cells within the inference window: its cell from each of
/// the first `PEEK_ROWS` rows, or from all rows when there are fewer.
pub open spec fn spec_column_sample(rv: Seq<Seq<Seq<char>>>, j: int) -> Seq<Seq<char>> {
    rv.take(
        if rv.len() <= PEEK_ROWS {
            rv.len() as int
        } else {
            PEEK_ROWS as int
        },
    ).map_values(|r: Seq<Seq<char>>| r[j])
}

/// A column with no non-empty sampled value infers String; one sampled at
/// all is then also nullable, every sample being empty.
pub proof fn lemma_all_empty_infers_string(cells: Seq<Seq<char>>)
    requires
        forall|k: int| 0 <= k < cells.len() ==> (#[trigger] cells[k]).len() == 0,
    ensures
        spec_unified(cells) == DataType::Utf8,
        cells.len() > 0 ==> spec_nullable(cells),
{
    assert(!sees(cells, DataType::Int64));
    assert(!sees(cells, DataType::Float64));
    if cells.len() > 0 {
        assert(cells[0].len() == 0);
    }
}

/// A column mixing Integer and Boolean classifications infers String.
pub proof fn lemma_integer_boolean_mix_infers_string(cells: Seq<Seq<char>>)
    requires
        sees(cells, DataType::Int64),
        sees(cells, DataType::Boolean),
    ensures
        spec_unified(cells) == DataType::Utf8,
{
}

/// A column mixing exactly Integer and Float classifications promotes to
/// Float.
pub proof fn lemma_integer_float_promotes(cells: Seq<Seq<char>>)
    requires
        sees(cells, DataType::Int64),
        sees(cells, DataType::Float64),
        !sees(cells, DataType::Boolean),
        !sees(cells, DataType::Utf8),
    ensures
        spec_unified(cells) == DataType::Float64,
{
}

/// The type-inference engine.
pub struct TypeInferer {}

impl TypeInferer {
    pub fn new() -> (t: TypeInferer) {
        TypeInferer {  }
    }

    /// The type of one non-empty cell.
    fn infer_data_type(&self, data: &str) -> (dt: DataType)
        ensures
            dt == spec_classify(data@),
    {
        if parse_i64(data).is_some() {
            return DataType::Int64;
        }
        if is_float_text(data) {
            return DataType::Float64;
        }
        if parse_bool(data).is_some() {
            return DataType::Boolean;
        }
        DataType::Utf8
    }

    /// The type and nullability of one column from its sampled cells: the
    /// unified classification of the non-empty cells, and whether any cell
    /// was empty.
    fn infer_data_type_from_rows(&self, cells: &Vec<String>) -> (r: (DataType, bool))
        ensures
            r.0 == spec_unified(strings_view(cells@)),
            r.1 == spec_nullable(strings_view(cells@)),
    {
        let ghost cv = strings_view(cells@);
        let mut saw_int = false;
        let mut saw_float = false;
        let mut saw_bool = false;
        let mut saw_utf8 = false;
        let mut nullable = false;
        let mut k: usize = 0;
        while k < cells.len()
            invariant
                k <= cells@.len(),
                cv == strings_view(cells@),
                saw_int == exists|q: int|
                    0 <= q < k && (#[trigger] cv[q]).len() > 0 && spec_classify(cv[q])
                        == DataType::Int64,
                saw_float == exists|q: int|
                    0 <= q < k && (#[trigger] cv[q]).len() > 0 && spec_classify(cv[q])
                        == DataType::Float64,
                saw_bool == exists|q: int|
                    0 <= q < k && (#[trigger] cv[q]).len() > 0 && spec_classify(cv[q])
                        == DataType::Boolean,
                saw_utf8 == exists|q: int|
                    0 <= q < k && (#[trigger] cv[q]).len() > 0 && spec_classify(cv[q])
                        == DataType::Utf8,
                nullable == exists|q: int| 0 <= q < k && (#[trigger] cv[q]).len() == 0,
            decreases cells@.len() - k,
        {
            proof {
                assert(cv[k as int] == cells@[k as int]@);
            }
            let cell = &cells[k];
            if cell.as_str().is_empty() {
                nullable = true;
            } else {
                match self.infer_data_type(cell.as_str()) {
                    DataType::Int64 => {
                        saw_int = true;
                    },
                    DataType::Float64 => {
                        saw_float = true;
                    },
                    DataType::Boolean => {
                        saw_bool = true;
                    },
                    DataType::Utf8 => {
                        saw_utf8 = true;
                    },
                }
            }
            k += 1;
        }
        let dt = if saw_int && !saw_float && !saw_bool && !saw_utf8 {
            DataType::Int64
        } else if saw_float && !saw_int && !saw_bool && !saw_utf8 {
            DataType::Float64
        } else if saw_bool && !saw_int && !saw_float && !saw_utf8 {
            DataType::Boolean
        } else if saw_utf8 && !saw_int && !saw_float && !saw_bool {
            DataType::Utf8
        } else if saw_int && saw_float && !saw_bool && !saw_utf8 {
            DataType::Float64
        } else {
            DataType::Utf8
        };
        (dt, nullable)
    }

    /// Infers one field per header column: its name, the unified type of
    /// its cells within the peek window, and its nullability.
    pub fn infer_fields(&self, headers: &Vec<String>, rows: &Vec<Vec<String>>) -> (fields: Vec<
        Field,
    >)
        requires
            forall|r: int|
                0 <= r < rows@.len() && r < PEEK_ROWS ==> (#[trigger] rows@[r])@.len()
                    == headers@.len(),
        ensures
            fields@.len() == headers@.len(),
            forall|j: int|
                0 <= j < headers@.len() ==> {
                    let sample = spec_column_sample(rows_view(rows@), j);
                    &&& (#[trigger] fields@[j]).name@ == headers@[j]@
                    &&& fields@[j].data_type == spec_unified(sample)
                    &&& fields@[j].nullable == spec_nullable(sample)
                },
    {
        let n_peek = if rows.len() < PEEK_ROWS {
            rows.len()
        } else {
            PEEK_ROWS
        };
        let mut fields: Vec<Field> = Vec::new();
        let mut j: usize = 0;
        while j < headers.len()
            invariant
                j <= headers@.len(),
                fields@.len() == j,
                n_peek == if rows@.len() < PEEK_ROWS {
                    rows@.len() as int
                } else {
                    PEEK_ROWS as int
                },
                forall|r: int|
                    0 <= r < rows@.len() && r < PEEK_ROWS ==> (#[trigger] rows@[r])@.len()
                        == headers@.len(),
                forall|q: int|
                    0 <= q < j ==> {
                        let sample = spec_column_sample(rows_view(rows@), q);
                        &&& (#[trigger] fields@[q]).name@ == headers@[q]@
                        &&& fields@[q].data_type == spec_unified(sample)
                        &&& fields@[q].nullable == spec_nullable(sample)
                    },
            decreases headers@.len() - j,
        {
            let mut sample: Vec<String> = Vec::new();
            let mut k: usize = 0;
            while k < n_peek
                invariant
                    k <= n_peek,
                    j < headers@.len(),
                    n_peek <= rows@.len(),
                    sample@.len() == k,
                    n_peek <= PEEK_ROWS,
                    forall|r: int|
                        0 <= r < rows@.len() && r < PEEK_ROWS ==> (#[trigger] rows@[r])@.len()
                            == headers@.len(),
                    forall|q: int| 0 <= q < k ==> (#[trigger] sample@[q])@ == rows@[q]@[j as int]@,
                decreases n_peek - k,
            {
                sample.push(rows[k][j].clone());
                k += 1;
            }
            proof {
                assert(strings_view(sample@) =~= spec_column_sample(rows_view(rows@), j as int));
            }
            let (dt, nullable) = self.infer_data_type_from_rows(&sample);
            fields.push(Field { name: headers[j].clone(), data_type: dt, nullable });
            j += 1;
        }
        fields
    }
}

} // verus!
