//! The schema and result trees: what a field is, how many bytes it
//! occupies in its parent's layout, and how evaluating it against a live
//! address produces a result of exactly the same shape.
use crate::error::{BetrayalError, BetrayalResult};
use crate::memory::ReadFromBytes;
use crate::numtext::{dec_digits, dec_int, i64_to_string, u64_to_string, usize_to_string};
use crate::process::ProcessQuery;
use crate::region::AddressInfo;
use vstd::prelude::*;
use vstd::string::*;

verus! {

/// Read one scalar of the target at `address`, with its region tag.
pub fn read_memory<T: ReadFromBytes>(pid: i32, address: usize) -> (r: BetrayalResult<
    (AddressInfo, T),
>)
    ensures
        r is Err ==> r->Err_0 is PartialRead || r->Err_0 is BadPid,
{
    let mut process = ProcessQuery::<T>::new(pid);
    match process.read_at(pid, address) {
        Ok(av) => Ok((av.0, av.2)),
        Err(e) => Err(e),
    }
}

/// One field of a schema.
#[derive(Debug)]
pub enum Field {
    Padding(usize),
    U8,
    I16,
    U16,
    I32,
    U32,
    I64,
    U64,
    Pointer32(Box<Field>),
    Pointer64(Box<Field>),
    Struct(ReclassStruct),
    SearchValues(Vec<(Field, String)>),
}

/// A named, ordered record of fields laid out consecutively.
#[derive(Debug)]
pub struct ReclassStruct {
    pub name: String,
    pub fields: Vec<(String, Field)>,
}

/// What evaluating one scalar slot produced.
#[derive(Debug)]
pub enum ValueResult<T> {
    Val(AddressInfo, T),
    Failed(String),
    Padding(usize),
}

/// The mirror of one schema field after evaluation.
#[derive(Debug)]
pub enum FieldResult {
    Padding(usize),
    U16(ValueResult<u16>),
    I16(ValueResult<i16>),
    U32(ValueResult<u32>),
    I32(ValueResult<i32>),
    U64(ValueResult<u64>),
    I64(ValueResult<i64>),
    U8(ValueResult<u8>),
    Pointer32(usize, Box<FieldResult>),
    Pointer64(usize, Box<FieldResult>),
    ReclassStruct(ReclassResult),
}

/// The mirror of a whole struct after evaluation.
#[derive(Debug)]
pub struct ReclassResult {
    pub name: String,
    pub fields: Vec<(String, FieldResult)>,
}

/// One schema to overlay at one scripted base address.
#[derive(Debug)]
pub struct ConfigEntry {
    pub base_address: String,
    pub struct_definition: ReclassStruct,
}

#[derive(Debug)]
pub struct ConfigEntryResult {
    pub base_address: usize,
    pub struct_definition: ReclassResult,
}

/// The whole user-editable schema file.
#[derive(Debug)]
pub struct Config {
    pub entries: Vec<ConfigEntry>,
}

#[derive(Debug)]
pub struct ConfigResult {
    pub entries: Vec<ConfigEntryResult>,
}

impl Field {
    /// How many bytes this field consumes in its parent's layout: scalars
    /// their width, padding its count, pointers their width, and structs
    /// and searches nothing (their own layout lives inside them).
    pub open spec fn size_spec(&self) -> int {
        match self {
            Field::Padding(size) => *size as int,
            Field::U8 => 1,
            Field::I16 => 2,
            Field::U16 => 2,
            Field::I32 => 4,
            Field::U32 => 4,
            Field::I64 => 8,
            Field::U64 => 8,
            Field::Pointer32(_) => 4,
            Field::Pointer64(_) => 8,
            Field::Struct(_) => 0,
            Field::SearchValues(_) => 0,
        }
    }

    pub fn size(&self) -> (r: usize)
        ensures
            r as int == self.size_spec(),
    {
        match self {
            Field::Padding(size) => *size,
            Field::U8 => 1,
            Field::I16 => 2,
            Field::U16 => 2,
            Field::I32 => 4,
            Field::U32 => 4,
            Field::I64 => 8,
            Field::U64 => 8,
            Field::Pointer32(_) => 4,
            Field::Pointer64(_) => 8,
            Field::Struct(_) => 0,
            Field::SearchValues(_) => 0,
        }
    }
}

/// The address the field at position `upto` of a struct laid out from
/// `base` is evaluated at: the running offset over the earlier fields'
/// sizes, saturating at the top of the address space.
pub open spec fn offset_address(base: usize, fields: Seq<(String, Field)>, upto: int) -> usize
    decreases upto,
{
    if upto <= 0 {
        base
    } else {
        let prev = offset_address(base, fields, upto - 1);
        let size = fields[upto - 1].1.size_spec();
        if size > usize::MAX - prev {
            usize::MAX
        } else {
            (prev + size) as usize
        }
    }
}

/// The region tag of the first evaluated leaf under a result, if any.
pub open spec fn info_spec(r: FieldResult) -> Option<AddressInfo>
    decreases r,
{
    match r {
        FieldResult::Padding(_s) => None,
        FieldResult::U16(v) => value_info_spec(v),
        FieldResult::U32(v) => value_info_spec(v),
        FieldResult::U64(v) => value_info_spec(v),
        FieldResult::I64(v) => value_info_spec(v),
        FieldResult::I32(v) => value_info_spec(v),
        FieldResult::I16(v) => value_info_spec(v),
        FieldResult::U8(v) => value_info_spec(v),
        FieldResult::Pointer32(_, p) => info_spec(*p),
        FieldResult::Pointer64(_, p) => info_spec(*p),
        FieldResult::ReclassStruct(rr) => if rr.fields@.len() > 0 {
            info_spec(rr.fields@[0].1)
        } else {
            None
        },
    }
}

pub open spec fn value_info_spec<T>(v: ValueResult<T>) -> Option<AddressInfo> {
    match v {
        ValueResult::Val(info, _) => Some(info),
        _ => None,
    }
}

/// The text a result field is labelled with: its evaluation address in
/// brackets (marked `@` when it landed in a non-writable region),
/// followed by the schema field's name.
pub open spec fn label_spec(fr: FieldResult, addr: usize, name: Seq<char>) -> Seq<char> {
    "["@ + (if (match info_spec(fr) {
        Some(i) => !i.writable,
        None => false,
    }) {
        "@"@
    } else {
        Seq::<char>::empty()
    }) + dec_digits(addr as nat) + "] :: "@ + name
}

/// The result tree has exactly the shape of the schema, leaf by leaf at
/// the evaluation address: padding mirrors padding with the same count
/// and never reads, scalars mirror their kind, a pointer records its own
/// address and its child either mirrors the pointed-to schema somewhere
/// or is the failed read of the pointer itself, structs mirror field for
/// field at running offsets, and a search yields one of its candidate
/// schemas' results at a probed offset (or an empty padding when nothing
/// was attempted).
/// The result tree has exactly the shape of the schema, with no claim
/// about addresses: padding mirrors padding with the same count, scalars
/// mirror their kind, a pointer's child either has the pointed-to
/// schema's shape or is the failed read of the pointer itself, structs
/// mirror field for field, and a search yields one of its candidate
/// schemas' results (or an empty padding when nothing was attempted).
pub open spec fn shape_mirrors(f: Field, r: FieldResult) -> bool
    decreases f,
{
    match f {
        Field::Padding(n) => r matches FieldResult::Padding(m) && m == n,
        Field::U8 => r matches FieldResult::U8(v) && !(v is Padding),
        Field::I16 => r matches FieldResult::I16(v) && !(v is Padding),
        Field::U16 => r matches FieldResult::U16(v) && !(v is Padding),
        Field::I32 => r matches FieldResult::I32(v) && !(v is Padding),
        Field::U32 => r matches FieldResult::U32(v) && !(v is Padding),
        Field::I64 => r matches FieldResult::I64(v) && !(v is Padding),
        Field::U64 => r matches FieldResult::U64(v) && !(v is Padding),
        Field::Pointer32(child) => r matches FieldResult::Pointer32(_a, sub) && (shape_mirrors(
            *child,
            *sub,
        ) || (*sub matches FieldResult::U32(v) && v is Failed)),
        Field::Pointer64(child) => r matches FieldResult::Pointer64(_a, sub) && (shape_mirrors(
            *child,
            *sub,
        ) || (*sub matches FieldResult::U64(v) && v is Failed)),
        Field::Struct(s) => r matches FieldResult::ReclassStruct(rr) && struct_shape_mirrors(
            s,
            rr,
        ),
        Field::SearchValues(pairs) => (exists|i: int|
            0 <= i < pairs@.len() && shape_mirrors((#[trigger] pairs@[i]).0, r)) || (
        r matches FieldResult::Padding(m) && m == 0),
    }
}

/// Struct results have their schema's shape, field for field.
pub open spec fn struct_shape_mirrors(s: ReclassStruct, r: ReclassResult) -> bool
    decreases s,
{
    r.fields@.len() == s.fields@.len() && forall|i: int|
        0 <= i < s.fields@.len() ==> shape_mirrors(
            (#[trigger] s.fields@[i]).1,
            (#[trigger] r.fields@[i]).1,
        )
}

pub open spec fn mirrors(f: Field, r: FieldResult, addr: usize) -> bool
    decreases f,
{
    match f {
        Field::Padding(n) => r matches FieldResult::Padding(m) && m == n,
        Field::U8 => r matches FieldResult::U8(v) && !(v is Padding),
        Field::I16 => r matches FieldResult::I16(v) && !(v is Padding),
        Field::U16 => r matches FieldResult::U16(v) && !(v is Padding),
        Field::I32 => r matches FieldResult::I32(v) && !(v is Padding),
        Field::U32 => r matches FieldResult::U32(v) && !(v is Padding),
        Field::I64 => r matches FieldResult::I64(v) && !(v is Padding),
        Field::U64 => r matches FieldResult::U64(v) && !(v is Padding),
        Field::Pointer32(child) => r matches FieldResult::Pointer32(a, sub) && a == addr && (
        shape_mirrors(*child, *sub) || (*sub matches FieldResult::U32(v) && v is Failed)),
        Field::Pointer64(child) => r matches FieldResult::Pointer64(a, sub) && a == addr && (
        shape_mirrors(*child, *sub) || (*sub matches FieldResult::U64(v) && v is Failed)),
        Field::Struct(s) => r matches FieldResult::ReclassStruct(rr) && struct_mirrors(
            s,
            rr,
            addr,
        ),
        Field::SearchValues(pairs) => (exists|i: int, off: int|
            0 <= i < pairs@.len() && 0 <= off < 1000 && addr + off <= usize::MAX && mirrors(
                (#[trigger] pairs@[i]).0,
                r,
                #[trigger] ((addr + off) as usize),
            )) || (r matches FieldResult::Padding(m) && m == 0),
    }
}

/// Struct results mirror their schema field for field at the running
/// offsets, keep the schema's name, and label every field with its
/// evaluation address and the schema field's name.
pub open spec fn struct_mirrors(s: ReclassStruct, r: ReclassResult, addr: usize) -> bool
    decreases s,
{
    &&& r.name == s.name
    &&& r.fields@.len() == s.fields@.len()
    &&& forall|i: int|
        0 <= i < s.fields@.len() ==> mirrors(
            (#[trigger] s.fields@[i]).1,
            (#[trigger] r.fields@[i]).1,
            offset_address(addr, s.fields@, i),
        )
    &&& forall|i: int|
        0 <= i < s.fields@.len() ==> (#[trigger] r.fields@[i]).0@ == label_spec(
            r.fields@[i].1,
            offset_address(addr, s.fields@, i),
            (#[trigger] s.fields@[i]).0@,
        )
}

/// Evaluate one scalar slot.
fn value_result<T: ReadFromBytes>(pid: i32, address: usize) -> (r: ValueResult<T>)
    ensures
        !(r is Padding),
{
    match read_memory::<T>(pid, address) {
        Ok((info, v)) => ValueResult::Val(info, v),
        Err(e) => {
            let mut text = String::from_str("error :: ");
            let m = e.message();
            text.append(m.as_str());
            ValueResult::Failed(text)
        },
    }
}

impl Field {
    /// Evaluate this field at `address`: scalars decode one remote value,
    /// padding reads nothing, pointers chase the stored address into
    /// their child, structs lay their fields out consecutively, and a
    /// search walks forward byte by byte, trying its candidates in
    /// declaration order, until one candidate's decoded text equals its
    /// literal.  The result mirrors the schema's shape at this address.
    #[verifier::rlimit(100)]
    #[verifier::spinoff_prover]
    pub fn result(&self, pid: i32, address: usize) -> (r: FieldResult)
        ensures
            shape_mirrors(*self, r),
            mirrors(*self, r, address),
        decreases *self,
    {
        match self {
            Field::Padding(s) => FieldResult::Padding(*s),
            Field::U8 => FieldResult::U8(value_result::<u8>(pid, address)),
            Field::I16 => FieldResult::I16(value_result::<i16>(pid, address)),
            Field::U16 => FieldResult::U16(value_result::<u16>(pid, address)),
            Field::I32 => FieldResult::I32(value_result::<i32>(pid, address)),
            Field::U32 => FieldResult::U32(value_result::<u32>(pid, address)),
            Field::I64 => FieldResult::I64(value_result::<i64>(pid, address)),
            Field::U64 => FieldResult::U64(value_result::<u64>(pid, address)),
            Field::Pointer32(field) => {
                match read_memory::<u32>(pid, address) {
                    Ok(read) => {
                        let sub = field.result(pid, read.1 as usize);
                        let boxed = Box::new(sub);
                        proof {
                            assert(shape_mirrors(**field, sub));
                            assert(*boxed == sub);
                            assert(shape_mirrors(*self, FieldResult::Pointer32(address, boxed)));
                            assert(mirrors(
                                *self,
                                FieldResult::Pointer32(address, boxed),
                                address,
                            ));
                        }
                        FieldResult::Pointer32(address, boxed)
                    },
                    Err(e) => {
                        let mut text = String::from_str("error :: ");
                        let m = e.message();
                        text.append(m.as_str());
                        FieldResult::Pointer32(
                            address,
                            Box::new(FieldResult::U32(ValueResult::Failed(text))),
                        )
                    },
                }
            },
            Field::Pointer64(field) => {
                match read_memory::<u64>(pid, address) {
                    Ok(read) => {
                        if read.1 <= usize::MAX as u64 {
                            let sub = field.result(pid, read.1 as usize);
                            let boxed = Box::new(sub);
                            proof {
                                assert(shape_mirrors(**field, sub));
                                assert(*boxed == sub);
                                assert(shape_mirrors(
                                    *self,
                                    FieldResult::Pointer64(address, boxed),
                                ));
                                assert(mirrors(
                                    *self,
                                    FieldResult::Pointer64(address, boxed),
                                    address,
                                ));
                            }
                            FieldResult::Pointer64(address, boxed)
                        } else {
                            FieldResult::Pointer64(
                                address,
                                Box::new(
                                    FieldResult::U64(
                                        ValueResult::Failed(
                                            String::from_str(
                                                "pointer does not fit this address space",
                                            ),
                                        ),
                                    ),
                                ),
                            )
                        }
                    },
                    Err(e) => {
                        let mut text = String::from_str("error :: ");
                        let m = e.message();
                        text.append(m.as_str());
                        FieldResult::Pointer64(
                            address,
                            Box::new(FieldResult::U64(ValueResult::Failed(text))),
                        )
                    },
                }
            },
            Field::Struct(reclass_struct) => FieldResult::ReclassStruct(
                reclass_struct.result(pid, address),
            ),
            Field::SearchValues(pairs) => {
                let mut last_result = FieldResult::Padding(0);
                let mut offset: usize = 0;
                while offset < 1000
                    invariant
                        *self == Field::SearchValues(*pairs),
                        (exists|i: int|
                            0 <= i < pairs@.len() && shape_mirrors(
                                (#[trigger] pairs@[i]).0,
                                last_result,
                            )) || (last_result matches FieldResult::Padding(m) && m == 0),
                        (exists|i: int, off: int|
                            0 <= i < pairs@.len() && 0 <= off < 1000 && address + off <= usize::MAX
                                && mirrors(
                                (#[trigger] pairs@[i]).0,
                                last_result,
                                #[trigger] ((address + off) as usize),
                            )) || (last_result matches FieldResult::Padding(m) && m == 0),
                    decreases 1000 - offset,
                {
                    if offset > usize::MAX - address {
                        break ;
                    }
                    let search_address = address + offset;
                    let mut idx: usize = 0;
                    while idx < pairs.len()
                        invariant
                            *self == Field::SearchValues(*pairs),
                            idx <= pairs@.len(),
                            offset < 1000,
                            search_address == address + offset,
                            (exists|i: int|
                                0 <= i < pairs@.len() && shape_mirrors(
                                    (#[trigger] pairs@[i]).0,
                                    last_result,
                                )) || (last_result matches FieldResult::Padding(m) && m == 0),
                            (exists|i: int, off: int|
                                0 <= i < pairs@.len() && 0 <= off < 1000 && address + off
                                    <= usize::MAX && mirrors(
                                    (#[trigger] pairs@[i]).0,
                                    last_result,
                                    #[trigger] ((address + off) as usize),
                                )) || (last_result matches FieldResult::Padding(m) && m == 0),
                        decreases pairs@.len() - idx,
                    {
                        let pair = &pairs[idx];
                        proof {
                            assert(decreases_to!(*self => (*self)->SearchValues_0));
                            assert((*self)->SearchValues_0 == *pairs);
                            assert(decreases_to!(*pairs => pairs@));
                            assert(decreases_to!(pairs@ => pairs@[idx as int]));
                            assert(decreases_to!(pairs@[idx as int] => pairs@[idx as int].0));
                        }
                        let result = pair.0.result(pid, search_address);
                        proof {
                            assert(shape_mirrors(pairs@[idx as int].0, result));
                            assert(mirrors(pairs@[idx as int].0, result, search_address));
                            assert(address + offset <= usize::MAX);
                            assert(search_address == ((address + offset) as usize));
                            assert(mirrors(
                                pairs@[idx as int].0,
                                result,
                                ((address + offset) as usize),
                            ));
                        }
                        match result.compare_value() {
                            Some(v) => {
                                if crate::numtext::str_eq(v.as_str(), pair.1.as_str()) {
                                    return result;
                                }
                                last_result = result;
                            },
                            None => {
                                last_result = result;
                            },
                        }
                        idx = idx + 1;
                    }
                    offset = offset + 1;
                }
                proof {
                    if !(last_result matches FieldResult::Padding(m) && m == 0) {
                        let (wi, woff) = choose|i: int, off: int|
                            0 <= i < pairs@.len() && 0 <= off < 1000 && address + off
                                <= usize::MAX && mirrors(
                                (#[trigger] pairs@[i]).0,
                                last_result,
                                #[trigger] ((address + off) as usize),
                            );
                        assert(mirrors(pairs@[wi].0, last_result, ((address + woff) as usize)));
                        let ws = choose|i: int|
                            0 <= i < pairs@.len() && shape_mirrors(
                                (#[trigger] pairs@[i]).0,
                                last_result,
                            );
                        assert(shape_mirrors(pairs@[ws].0, last_result));
                    }
                    assert(shape_mirrors(*self, last_result));
                    assert(mirrors(*self, last_result, address));
                }
                last_result
            },
        }
    }
}

impl ReclassStruct {
    /// Evaluate every field in declaration order, each at the running
    /// offset from `address` advanced by the previous field's size.  The
    /// result keeps the schema's name and mirrors it field for field;
    /// each result field is labelled with its evaluation address (and an
    /// `@` when it landed in a non-writable region) and its schema name.
    pub fn result(&self, pid: i32, address: usize) -> (r: ReclassResult)
        ensures
            struct_shape_mirrors(*self, r),
            struct_mirrors(*self, r, address),
        decreases *self,
    {
        let n = self.fields.len();
        let mut fields: Vec<(String, FieldResult)> = Vec::new();
        let mut base = address;
        let mut i: usize = 0;
        while i < n
            invariant
                0 <= i <= n,
                n == self.fields@.len(),
                fields@.len() == i,
                base == offset_address(address, self.fields@, i as int),
                forall|k: int|
                    0 <= k < i ==> shape_mirrors(
                        (#[trigger] self.fields@[k]).1,
                        (#[trigger] fields@[k]).1,
                    ) && mirrors(
                        self.fields@[k].1,
                        fields@[k].1,
                        offset_address(address, self.fields@, k),
                    ),
                forall|k: int|
                    0 <= k < i ==> (#[trigger] fields@[k]).0@ == label_spec(
                        fields@[k].1,
                        offset_address(address, self.fields@, k),
                        (#[trigger] self.fields@[k]).0@,
                    ),
            decreases n - i,
        {
            let field_result = (&self.fields[i].1).result(pid, base);
            let size = (&self.fields[i].1).size();
            let is_static = match field_result.info() {
                Some(info) => info.is_static(),
                None => false,
            };
            let mut label = String::from_str("[");
            if is_static {
                label.append("@");
            }
            let shown = usize_to_string(base);
            label.append(shown.as_str());
            label.append("] :: ");
            label.append(self.fields[i].0.as_str());
            proof {
                reveal_strlit("[");
                reveal_strlit("@");
                reveal_strlit("] :: ");
                assert(is_static == (match info_spec(field_result) {
                    Some(tag) => !tag.writable,
                    None => false,
                }));
                assert(label@ =~= label_spec(field_result, base, self.fields@[i as int].0@));
            }
            fields.push((label, field_result));
            base = if size > usize::MAX - base {
                usize::MAX
            } else {
                base + size
            };
            i = i + 1;
        }
        ReclassResult { name: self.name.clone(), fields }
    }
}

impl<T> ValueResult<T> {
    /// The region tag of a successful read.
    pub fn info(&self) -> (r: Option<&AddressInfo>)
        ensures
            match r {
                Some(i) => value_info_spec(*self) == Some(*i),
                None => value_info_spec(*self) is None,
            },
    {
        match self {
            ValueResult::Val(info, _) => Some(info),
            ValueResult::Failed(_) => None,
            ValueResult::Padding(_) => None,
        }
    }
}

impl FieldResult {
    /// The region tag of the first evaluated leaf under this result.
    pub fn info(&self) -> (r: Option<&AddressInfo>)
        ensures
            match r {
                Some(i) => info_spec(*self) == Some(*i),
                None => info_spec(*self) is None,
            },
        decreases *self,
    {
        match self {
            FieldResult::Padding(_s) => None,
            FieldResult::U16(v) => v.info(),
            FieldResult::U32(v) => v.info(),
            FieldResult::U64(v) => v.info(),
            FieldResult::I64(v) => v.info(),
            FieldResult::I32(v) => v.info(),
            FieldResult::I16(v) => v.info(),
            FieldResult::U8(v) => v.info(),
            FieldResult::Pointer32(_, p) => p.info(),
            FieldResult::Pointer64(_, p) => p.info(),
            FieldResult::ReclassStruct(r) => {
                if r.fields.len() > 0 {
                    r.fields[0].1.info()
                } else {
                    None
                }
            },
        }
    }

    /// The decimal text a search compares against its literals: the value
    /// of a successfully read scalar, or a pointer's own address.
    pub fn compare_value(&self) -> (r: Option<String>)
        ensures
            match r {
                Some(text) => compare_spec(*self) == Some(text@),
                None => compare_spec(*self) is None,
            },
    {
        match self {
            FieldResult::U16(v) => v.compare_value(),
            FieldResult::I16(v) => v.compare_value(),
            FieldResult::U32(v) => v.compare_value(),
            FieldResult::I32(v) => v.compare_value(),
            FieldResult::U64(v) => v.compare_value(),
            FieldResult::I64(v) => v.compare_value(),
            FieldResult::U8(v) => v.compare_value(),
            FieldResult::Pointer32(a, _) => Some(usize_to_string(*a)),
            FieldResult::Pointer64(a, _) => Some(usize_to_string(*a)),
            FieldResult::ReclassStruct(_) => None,
            FieldResult::Padding(_) => None,
        }
    }
}

impl ValueResult<u8> {
    /// The decimal text of a successful read.
    pub fn compare_value(&self) -> (r: Option<String>)
        ensures
            r is Some <==> self is Val,
            r matches Some(s) ==> s@ == crate::numtext::dec_digits(self->Val_1 as nat),
    {
        match self {
            ValueResult::Val(_, x) => Some(u64_to_string(*x as u64)),
            _ => None,
        }
    }
}

impl ValueResult<u16> {
    /// The decimal text of a successful read.
    pub fn compare_value(&self) -> (r: Option<String>)
        ensures
            r is Some <==> self is Val,
            r matches Some(s) ==> s@ == crate::numtext::dec_digits(self->Val_1 as nat),
    {
        match self {
            ValueResult::Val(_, x) => Some(u64_to_string(*x as u64)),
            _ => None,
        }
    }
}

impl ValueResult<u32> {
    /// The decimal text of a successful read.
    pub fn compare_value(&self) -> (r: Option<String>)
        ensures
            r is Some <==> self is Val,
            r matches Some(s) ==> s@ == crate::numtext::dec_digits(self->Val_1 as nat),
    {
        match self {
            ValueResult::Val(_, x) => Some(u64_to_string(*x as u64)),
            _ => None,
        }
    }
}

impl ValueResult<u64> {
    /// The decimal text of a successful read.
    pub fn compare_value(&self) -> (r: Option<String>)
        ensures
            r is Some <==> self is Val,
            r matches Some(s) ==> s@ == crate::numtext::dec_digits(self->Val_1 as nat),
    {
        match self {
            ValueResult::Val(_, x) => Some(u64_to_string(*x)),
            _ => None,
        }
    }
}

impl ValueResult<i16> {
    /// The decimal text of a successful read.
    pub fn compare_value(&self) -> (r: Option<String>)
        ensures
            r is Some <==> self is Val,
            r matches Some(s) ==> s@ == crate::numtext::dec_int(self->Val_1 as int),
    {
        match self {
            ValueResult::Val(_, x) => Some(i64_to_string(*x as i64)),
            _ => None,
        }
    }
}

impl ValueResult<i32> {
    /// The decimal text of a successful read.
    pub fn compare_value(&self) -> (r: Option<String>)
        ensures
            r is Some <==> self is Val,
            r matches Some(s) ==> s@ == crate::numtext::dec_int(self->Val_1 as int),
    {
        match self {
            ValueResult::Val(_, x) => Some(i64_to_string(*x as i64)),
            _ => None,
        }
    }
}

impl ValueResult<i64> {
    /// The decimal text of a successful read.
    pub fn compare_value(&self) -> (r: Option<String>)
        ensures
            r is Some <==> self is Val,
            r matches Some(s) ==> s@ == crate::numtext::dec_int(self->Val_1 as int),
    {
        match self {
            ValueResult::Val(_, x) => Some(i64_to_string(*x)),
            _ => None,
        }
    }
}

/// The decimal text each result kind offers a search for comparison.
pub open spec fn compare_spec(r: FieldResult) -> Option<Seq<char>> {
    match r {
        FieldResult::U16(v) => match v {
            ValueResult::Val(_, x) => Some(dec_digits(x as nat)),
            _ => None,
        },
        FieldResult::I16(v) => match v {
            ValueResult::Val(_, x) => Some(dec_int(x as int)),
            _ => None,
        },
        FieldResult::U32(v) => match v {
            ValueResult::Val(_, x) => Some(dec_digits(x as nat)),
            _ => None,
        },
        FieldResult::I32(v) => match v {
            ValueResult::Val(_, x) => Some(dec_int(x as int)),
            _ => None,
        },
        FieldResult::U64(v) => match v {
            ValueResult::Val(_, x) => Some(dec_digits(x as nat)),
            _ => None,
        },
        FieldResult::I64(v) => match v {
            ValueResult::Val(_, x) => Some(dec_int(x as int)),
            _ => None,
        },
        FieldResult::U8(v) => match v {
            ValueResult::Val(_, x) => Some(dec_digits(x as nat)),
            _ => None,
        },
        FieldResult::Pointer32(a, _) => Some(dec_digits(a as nat)),
        FieldResult::Pointer64(a, _) => Some(dec_digits(a as nat)),
        FieldResult::ReclassStruct(_) => None,
        FieldResult::Padding(_) => None,
    }
}

impl ConfigEntry {
    /// Overlay this entry's schema at an already-computed base address.
    /// (The base-address script itself is evaluated by an outside
    /// expression engine, at the caller's side.)
    pub fn result(&self, pid: i32, base_address: usize) -> (r: ConfigEntryResult)
        ensures
            struct_mirrors(self.struct_definition, r.struct_definition, base_address),
            r.base_address == base_address,
    {
        ConfigEntryResult {
            base_address,
            struct_definition: self.struct_definition.result(pid, base_address),
        }
    }
}

impl Config {
    /// Overlay every entry at its already-computed base address.
    pub fn result(&self, pid: i32, base_addresses: &Vec<usize>) -> (r: ConfigResult)
        requires
            base_addresses@.len() == self.entries@.len(),
        ensures
            r.entries@.len() == self.entries@.len(),
            forall|i: int|
                0 <= i < r.entries@.len() ==> struct_mirrors(
                    (#[trigger] self.entries@[i]).struct_definition,
                    (#[trigger] r.entries@[i]).struct_definition,
                    base_addresses@[i],
                ) && r.entries@[i].base_address == base_addresses@[i],
    {
        let n = self.entries.len();
        let mut entries: Vec<ConfigEntryResult> = Vec::new();
        let mut i: usize = 0;
        while i < n
            invariant
                0 <= i <= n,
                n == self.entries@.len(),
                n == base_addresses@.len(),
                entries@.len() == i,
                forall|k: int|
                    0 <= k < i ==> struct_mirrors(
                        (#[trigger] self.entries@[k]).struct_definition,
                        (#[trigger] entries@[k]).struct_definition,
                        base_addresses@[k],
                    ) && entries@[k].base_address == base_addresses@[k],
            decreases n - i,
        {
            entries.push(self.entries[i].result(pid, base_addresses[i]));
            i = i + 1;
        }
        ConfigResult { entries }
    }
}

impl Default for ConfigEntry {
    /// The seed entry the live runner writes into a fresh schema file.
    fn default() -> (r: Self)
        ensures
            r.struct_definition.fields@.len() == 7,
    {
        ConfigEntry {
            base_address: String::from_str("2137 - 4 * SIZE_I32"),
            struct_definition: ReclassStruct::default(),
        }
    }
}

impl Default for Config {
    fn default() -> (r: Self)
        ensures
            r.entries@.len() == 1,
    {
        let mut entries: Vec<ConfigEntry> = Vec::new();
        entries.push(ConfigEntry::default());
        Config { entries }
    }
}

impl Default for ReclassStruct {
    /// A starter schema: a handful of plain fields, one pointer to a
    /// scalar, and one pointer to a nested struct.
    fn default() -> (r: Self)
        ensures
            r.fields@.len() == 7,
    {
        let mut fields: Vec<(String, Field)> = Vec::new();
        let mut i: u64 = 0;
        while i < 5
            invariant
                0 <= i <= 5,
                fields@.len() == i,
            decreases 5 - i,
        {
            let mut name = String::from_str("field_");
            let digits = u64_to_string(i);
            name.append(digits.as_str());
            fields.push((name, Field::I32));
            i = i + 1;
        }
        fields.push((String::from_str("field_6"), Field::Pointer32(Box::new(Field::I16))));
        let mut inner_fields: Vec<(String, Field)> = Vec::new();
        inner_fields.push((String::from_str("field_1"), Field::U16));
        inner_fields.push((String::from_str("field_2"), Field::Padding(2137)));
        let inner = ReclassStruct {
            name: String::from_str("SomeInnerClass"),
            fields: inner_fields,
        };
        fields.push(
            (String::from_str("field_7"), Field::Pointer64(Box::new(Field::Struct(inner)))),
        );
        ReclassStruct { name: String::from_str("SomeClass"), fields }
    }
}

} // verus!
