//! Field types, field descriptors, table layouts and field values.
use vstd::prelude::*;

use crate::text::str_eq;

verus! {

/// The storage type of a field.
#[derive(Debug, Clone, Copy, PartialEq, Eq, Structural)]
pub enum FieldType {
    String,
    Integer,
    Float,
    ShortCompressedString,
    LongCompressedString,
    Unknown(i32),
}

/// The field type that a raw type code stands for.
pub open spec fn spec_field_type(raw: i32) -> FieldType {
    if raw == 0 {
        FieldType::String
    } else if raw == 3 {
        FieldType::Integer
    } else if raw == 4 {
        FieldType::Float
    } else if raw == 13 {
        FieldType::ShortCompressedString
    } else if raw == 14 {
        FieldType::LongCompressedString
    } else {
        FieldType::Unknown(raw)
    }
}

impl FieldType {
    /// Maps a raw type code of a field descriptor to its type.
    pub fn from_raw(raw: i32) -> (t: Self)
        ensures
            t == spec_field_type(raw),
    {
        match raw {
            0 => FieldType::String,
            3 => FieldType::Integer,
            4 => FieldType::Float,
            13 => FieldType::ShortCompressedString,
            14 => FieldType::LongCompressedString,
            other => FieldType::Unknown(other),
        }
    }
}

/// One field of a table: where it sits in a record and how it is stored.
#[derive(Debug)]
pub struct FieldDescriptor {
    pub shortname: String,
    pub name: String,
    pub field_type: FieldType,
    pub bit_offset: u32,
    pub depth: u32,
    pub rangelow: i64,
}

/// A field answers to `name` by its schema name or by its short name.
pub open spec fn field_answers_to(f: FieldDescriptor, name: Seq<char>) -> bool {
    f.name@ == name || f.shortname@ == name
}

/// The index of the first field from `from` on that answers to `name`.
pub open spec fn first_field_from(fields: Seq<FieldDescriptor>, name: Seq<char>, from: int) -> Option<int>
    decreases fields.len() - from,
{
    if from < 0 || from >= fields.len() {
        None
    } else if field_answers_to(fields[from], name) {
        Some(from)
    } else {
        first_field_from(fields, name, from + 1)
    }
}

pub proof fn lemma_first_field_bounds(fields: Seq<FieldDescriptor>, name: Seq<char>, from: int)
    ensures
        first_field_from(fields, name, from) matches Some(i) ==> 0 <= from <= i < fields.len()
            && field_answers_to(fields[i], name),
    decreases fields.len() - from,
{
    if 0 <= from < fields.len() && !field_answers_to(fields[from], name) {
        lemma_first_field_bounds(fields, name, from + 1);
    }
}

/// The layout of one table as read from its header and field descriptors.
#[derive(Debug)]
pub struct TableInfo {
    pub shortname: String,
    pub name: Option<String>,
    pub start: usize,
    pub end: usize,
    pub rec_bytes: usize,
    pub rec_bits: u32,
    pub n_records_slot: usize,
    pub n_written_records: usize,
    pub field_desc_start: usize,
    pub data_start: usize,
    pub data_end: usize,
    pub has_record_crc: bool,
    pub record_crc_pos: Option<usize>,
    pub has_index_block: bool,
    pub compressed_string_length: u32,
    pub fields: Vec<FieldDescriptor>,
}

impl TableInfo {
    /// The index of the first field that answers to `name`.
    pub open spec fn spec_field_index(&self, name: Seq<char>) -> Option<int> {
        first_field_from(self.fields@, name, 0)
    }

    /// The start of record `index` in the file.
    pub open spec fn spec_record_offset(&self, index: int) -> int {
        self.data_start + index * self.rec_bytes
    }

    /// The first field whose schema name or short name is `name`.
    pub fn field(&self, name: &str) -> (r: Option<&FieldDescriptor>)
        ensures
            match self.spec_field_index(name@) {
                Some(i) => r == Some(&self.fields@[i]),
                None => r is None,
            },
    {
        let mut i: usize = 0;
        while i < self.fields.len()
            invariant
                i <= self.fields@.len(),
                first_field_from(self.fields@, name@, 0) == first_field_from(
                    self.fields@,
                    name@,
                    i as int,
                ),
            decreases self.fields@.len() - i,
        {
            let f = &self.fields[i];
            if str_eq(f.name.as_str(), name) || str_eq(f.shortname.as_str(), name) {
                return Some(f);
            }
            i = i + 1;
        }
        None
    }

    /// The start of record `index` in the file.
    pub fn record_offset(&self, index: usize) -> (r: usize)
        requires
            self.spec_record_offset(index as int) <= usize::MAX,
        ensures
            r == self.spec_record_offset(index as int),
    {
        proof {
            assert(0 <= index * self.rec_bytes) by (nonlinear_arith);
        }
        self.data_start + index * self.rec_bytes
    }
}

/// A decoded field value. A float is carried as the bits of its IEEE-754 single.
#[derive(Debug, PartialEq)]
pub enum FieldValue {
    Int(i64),
    Float(u32),
    Str(String),
}

impl FieldValue {
    /// The integer, for an integer value.
    pub fn as_int(&self) -> (r: Option<i64>)
        ensures
            r == (match self {
                FieldValue::Int(v) => Some(*v),
                _ => None,
            }),
    {
        match self {
            FieldValue::Int(v) => Some(*v),
            _ => None,
        }
    }

    /// The IEEE-754 bits, for a float value.
    pub fn as_float(&self) -> (r: Option<u32>)
        ensures
            r == (match self {
                FieldValue::Float(v) => Some(*v),
                _ => None,
            }),
    {
        match self {
            FieldValue::Float(v) => Some(*v),
            _ => None,
        }
    }

    /// The text, for a string value.
    pub fn as_str(&self) -> (r: Option<&str>)
        ensures
            match self {
                FieldValue::Str(v) => r matches Some(s) && s@ == v@,
                _ => r is None,
            },
    {
        match self {
            FieldValue::Str(v) => Some(v.as_str()),
            _ => None,
        }
    }

    /// A copy of the value.
    pub fn copied(&self) -> (r: FieldValue)
        ensures
            r == *self,
    {
        match self {
            FieldValue::Int(v) => FieldValue::Int(*v),
            FieldValue::Float(v) => FieldValue::Float(*v),
            FieldValue::Str(v) => FieldValue::Str(v.clone()),
        }
    }
}

impl Clone for FieldValue {
    fn clone(&self) -> (r: FieldValue)
        ensures
            r == *self,
    {
        self.copied()
    }
}

} // verus!
