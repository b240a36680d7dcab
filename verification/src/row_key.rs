//! Keys of rows as bytes.

use crate::batch::invalid_batch;
use crate::column::{column_views, Column, ColumnView};
use crate::error::{ErrorView, SparkXError};
use crate::kernels::{
    any_too_large, keys_tell_apart, row_key, row_keys, row_of, too_large_failure,
};
use crate::text::join;
use crate::types::{DataType, DataTypeView};
use vstd::prelude::*;

verus! {

pub open spec fn type_views(types: Seq<DataType>) -> Seq<DataTypeView> {
    Seq::new(types.len(), |i: int| types[i]@)
}

pub open spec fn key_views(keys: Seq<Vec<u8>>) -> Seq<Seq<u8>> {
    Seq::new(keys.len(), |i: int| keys[i]@)
}

/// What is wrong with the first key column from `from` on that is not of its type.
pub open spec fn key_types_check(
    types: Seq<DataTypeView>,
    columns: Seq<ColumnView>,
    from: int,
) -> Result<(), ErrorView>
    decreases columns.len() - from,
{
    if from >= columns.len() {
        Ok(())
    } else if columns[from].data_type() != types[from] {
        Err(
            invalid_batch(
                "RowConverter column schema mismatch, expected "@ + types[from].name() + " got "@
                    + columns[from].data_type().name(),
            ),
        )
    } else {
        key_types_check(types, columns, from + 1)
    }
}

/// The keys of rows by some columns, or why there are none. Without columns all keys are empty.
pub open spec fn encoded(types: Seq<DataTypeView>, columns: Seq<ColumnView>, rows: nat) -> Result<
    Seq<Seq<u8>>,
    ErrorView,
> {
    if columns.len() == 0 {
        Ok(Seq::new(rows, |row: int| Seq::<u8>::empty()))
    } else {
        match key_types_check(types, columns, 0) {
            Err(error) => Err(error),
            Ok(()) => if any_too_large(columns) {
                Err(too_large_failure())
            } else {
                Ok(Seq::new(rows, |row: int| row_key(row_of(columns, row))))
            },
        }
    }
}

/// The bytes of a row: of no columns, none.
pub open spec fn key_of(row: Seq<ColumnView>) -> Seq<u8> {
    if row.len() == 0 {
        Seq::empty()
    } else {
        row_key(row)
    }
}

pub open spec fn keys_outcome(r: Result<Vec<Vec<u8>>, SparkXError>) -> Result<
    Seq<Seq<u8>>,
    ErrorView,
> {
    match r {
        Ok(keys) => Ok(key_views(keys@)),
        Err(error) => Err(error@),
    }
}

/// For each row the bytes by which its values in columns of known types are told apart.
pub fn encode_keys(types: &Vec<DataType>, columns: &Vec<Column>, rows: usize) -> (r: Result<
    Vec<Vec<u8>>,
    SparkXError,
>)
    requires
        types.len() == columns.len(),
        forall|i: int| 0 <= i < columns.len() ==> (#[trigger] columns@[i])@.len() == rows,
    ensures
        keys_outcome(r) == encoded(type_views(types@), column_views(columns@), rows as nat),
        r matches Ok(keys) ==> keys.len() == rows,
        r matches Ok(keys) ==> columns.len() > 0 ==> keys_tell_apart(
            keys@,
            column_views(columns@),
        ),
{
    let ghost wanted = type_views(types@);
    let ghost views = column_views(columns@);
    if columns.len() == 0 {
        let mut keys: Vec<Vec<u8>> = Vec::new();
        for i in 0..rows
            invariant
                keys.len() == i,
                forall|k: int| 0 <= k < i ==> (#[trigger] keys@[k])@ == Seq::<u8>::empty(),
        {
            let key: Vec<u8> = Vec::new();
            proof {
                assert(key@ =~= Seq::empty());
            }
            keys.push(key);
        }
        proof {
            assert(key_views(keys@) =~= Seq::new(rows as nat, |row: int| Seq::<u8>::empty()));
        }
        return Ok(keys);
    }
    for i in 0..columns.len()
        invariant
            types.len() == columns.len(),
            columns.len() > 0,
            wanted == type_views(types@),
            views == column_views(columns@),
            key_types_check(wanted, views, 0) == key_types_check(wanted, views, i as int),
    {
        proof {
            assert(wanted[i as int] == types@[i as int]@);
            assert(views[i as int] == columns@[i as int]@);
        }
        let found = columns[i].data_type();
        if !found.same(&types[i]) {
            let mut message: String = join(
                "Invalid argument error: RowConverter column schema mismatch, expected ",
                types[i].to_text().as_str(),
            );
            message.append(" got ");
            message.append(found.to_text().as_str());
            proof {
                mismatch_text(wanted[i as int].name(), views[i as int].data_type().name());
            }
            return Err(SparkXError::Arrow(message));
        }
    }
    match row_keys(columns, rows) {
        Some(keys) => {
            proof {
                assert(key_views(keys@) =~= Seq::new(
                    rows as nat,
                    |row: int| row_key(row_of(views, row)),
                ));
            }
            Ok(keys)
        },
        None => Err(
            SparkXError::resource_exhausted("column is too large to compute with".to_owned()),
        ),
    }
}

proof fn mismatch_text(wanted: Seq<char>, found: Seq<char>)
    ensures
        "Invalid argument error: RowConverter column schema mismatch, expected "@ + wanted
            + " got "@ + found == "Invalid argument error: "@ + (
        "RowConverter column schema mismatch, expected "@ + wanted + " got "@ + found),
{
    reveal_strlit("Invalid argument error: RowConverter column schema mismatch, expected ");
    reveal_strlit("Invalid argument error: ");
    reveal_strlit("RowConverter column schema mismatch, expected ");
    assert("Invalid argument error: RowConverter column schema mismatch, expected "@
        =~= "Invalid argument error: "@ + "RowConverter column schema mismatch, expected "@);
    assert("Invalid argument error: "@ + "RowConverter column schema mismatch, expected "@ + wanted
        + " got "@ + found =~= "Invalid argument error: "@ + (
    "RowConverter column schema mismatch, expected "@ + wanted + " got "@ + found));
}

} // verus!
