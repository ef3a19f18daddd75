//! The runtime bridge: the functions that compiled code calls, with their signatures.
use vstd::prelude::*;

verus! {

/// A machine type; `Ptr` is a pointer of the target.
#[derive(Clone, Copy, Debug, PartialEq, Eq, Structural)]
pub enum ClifTy {
    Ptr,
    I64,
    I32,
    I8,
    F64,
}

/// A function of the runtime bridge.
#[derive(Clone, Copy, Debug, PartialEq, Eq, Structural)]
pub enum RtFn {
    Safepoint,
    ConstNil,
    ConstTrue,
    ConstFalse,
    ConstLong,
    ConstDouble,
    ConstChar,
    ConstString,
    ConstKeyword,
    ConstSymbol,
    Truthiness,
    Add,
    Sub,
    Mul,
    Div,
    Rem,
    Eq,
    Lt,
    Gt,
    Lte,
    Gte,
    AllocVector,
    AllocMap,
    AllocSet,
    AllocList,
    AllocCons,
    Get,
    Count,
    CountFilter,
    IntoFilter,
    IntoMapcat,
    IntoMap,
    First,
    Rest,
    Assoc,
    Conj,
    Call,
    Deref,
    Println,
    Pr,
    IsNil,
    IsVector,
    IsMap,
    IsSeq,
    Identical,
    Str,
    LoadGlobal,
    LoadGlobalVersionedIc,
    DefVar,
    MakeFn,
    MakeFnVariadic,
    MakeFnMulti,
    Throw,
    Try,
    Dissoc,
    Disj,
    Nth,
    Contains,
    ToSeq,
    LazySeq,
    Transient,
    AssocBang,
    ConjBang,
    PersistentBang,
    AtomReset,
    AtomSwap,
    Apply,
    SetBang,
    WithBindings,
    LoadVar,
    Reduce2,
    Reduce3,
    MapSeq,
    Filter,
    Mapv,
    Filterv,
    SomePred,
    Every,
    Into,
    Into3,
    GroupBy,
    Partition2,
    Partition3,
    Partition4,
    Frequencies,
    Keep,
    Remove,
    MapIndexed,
    Zipmap,
    Juxt,
    Comp,
    Partial,
    Complement,
    Concat,
    Range1,
    Range2,
    Range3,
    Take,
    Drop,
    Reverse,
    Sort,
    SortBy,
    Keys,
    Vals,
    Merge,
    Update,
    GetIn,
    AssocIn,
    IsNumber,
    IsString,
    IsKeyword,
    IsSymbol,
    IsBool,
    IsInt,
    Prn,
    Print,
    Atom,
    StrN,
    PrintlnN,
    WithOutStr,
    Peek,
    Pop,
    Vec,
    Mapcat,
    IsEmpty,
    Repeatedly,
    RegionStart,
    RegionEnd,
    RegionAllocVector,
    RegionAllocMap,
    RegionAllocSet,
    RegionAllocList,
    RegionAllocCons,
    ValueTag,
    UnboxLong,
    UnboxDouble,
    BoxBool,
    Deopt,
    KwIcFill,
    CallIc,
    OverflowError,
}

/// The symbol of a bridge function.
pub open spec fn rt_symbol(f: RtFn) -> Seq<char> {
    match f {
        RtFn::Safepoint => "rt_safepoint"@,
        RtFn::ConstNil => "rt_const_nil"@,
        RtFn::ConstTrue => "rt_const_true"@,
        RtFn::ConstFalse => "rt_const_false"@,
        RtFn::ConstLong => "rt_const_long"@,
        RtFn::ConstDouble => "rt_const_double"@,
        RtFn::ConstChar => "rt_const_char"@,
        RtFn::ConstString => "rt_const_string"@,
        RtFn::ConstKeyword => "rt_const_keyword"@,
        RtFn::ConstSymbol => "rt_const_symbol"@,
        RtFn::Truthiness => "rt_truthiness"@,
        RtFn::Add => "rt_add"@,
        RtFn::Sub => "rt_sub"@,
        RtFn::Mul => "rt_mul"@,
        RtFn::Div => "rt_div"@,
        RtFn::Rem => "rt_rem"@,
        RtFn::Eq => "rt_eq"@,
        RtFn::Lt => "rt_lt"@,
        RtFn::Gt => "rt_gt"@,
        RtFn::Lte => "rt_lte"@,
        RtFn::Gte => "rt_gte"@,
        RtFn::AllocVector => "rt_alloc_vector"@,
        RtFn::AllocMap => "rt_alloc_map"@,
        RtFn::AllocSet => "rt_alloc_set"@,
        RtFn::AllocList => "rt_alloc_list"@,
        RtFn::AllocCons => "rt_alloc_cons"@,
        RtFn::Get => "rt_get"@,
        RtFn::Count => "rt_count"@,
        RtFn::CountFilter => "rt_count_filter"@,
        RtFn::IntoFilter => "rt_into_filter"@,
        RtFn::IntoMapcat => "rt_into_mapcat"@,
        RtFn::IntoMap => "rt_into_map"@,
        RtFn::First => "rt_first"@,
        RtFn::Rest => "rt_rest"@,
        RtFn::Assoc => "rt_assoc"@,
        RtFn::Conj => "rt_conj"@,
        RtFn::Call => "rt_call"@,
        RtFn::Deref => "rt_deref"@,
        RtFn::Println => "rt_println"@,
        RtFn::Pr => "rt_pr"@,
        RtFn::IsNil => "rt_is_nil"@,
        RtFn::IsVector => "rt_is_vector"@,
        RtFn::IsMap => "rt_is_map"@,
        RtFn::IsSeq => "rt_is_seq"@,
        RtFn::Identical => "rt_identical"@,
        RtFn::Str => "rt_str"@,
        RtFn::LoadGlobal => "rt_load_global"@,
        RtFn::LoadGlobalVersionedIc => "rt_load_global_versioned_ic"@,
        RtFn::DefVar => "rt_def_var"@,
        RtFn::MakeFn => "rt_make_fn"@,
        RtFn::MakeFnVariadic => "rt_make_fn_variadic"@,
        RtFn::MakeFnMulti => "rt_make_fn_multi"@,
        RtFn::Throw => "rt_throw"@,
        RtFn::Try => "rt_try"@,
        RtFn::Dissoc => "rt_dissoc"@,
        RtFn::Disj => "rt_disj"@,
        RtFn::Nth => "rt_nth"@,
        RtFn::Contains => "rt_contains"@,
        RtFn::ToSeq => "rt_seq"@,
        RtFn::LazySeq => "rt_lazy_seq"@,
        RtFn::Transient => "rt_transient"@,
        RtFn::AssocBang => "rt_assoc_bang"@,
        RtFn::ConjBang => "rt_conj_bang"@,
        RtFn::PersistentBang => "rt_persistent_bang"@,
        RtFn::AtomReset => "rt_atom_reset"@,
        RtFn::AtomSwap => "rt_atom_swap"@,
        RtFn::Apply => "rt_apply"@,
        RtFn::SetBang => "rt_set_bang"@,
        RtFn::WithBindings => "rt_with_bindings"@,
        RtFn::LoadVar => "rt_load_var"@,
        RtFn::Reduce2 => "rt_reduce2"@,
        RtFn::Reduce3 => "rt_reduce3"@,
        RtFn::MapSeq => "rt_map"@,
        RtFn::Filter => "rt_filter"@,
        RtFn::Mapv => "rt_mapv"@,
        RtFn::Filterv => "rt_filterv"@,
        RtFn::SomePred => "rt_some"@,
        RtFn::Every => "rt_every"@,
        RtFn::Into => "rt_into"@,
        RtFn::Into3 => "rt_into3"@,
        RtFn::GroupBy => "rt_group_by"@,
        RtFn::Partition2 => "rt_partition2"@,
        RtFn::Partition3 => "rt_partition3"@,
        RtFn::Partition4 => "rt_partition4"@,
        RtFn::Frequencies => "rt_frequencies"@,
        RtFn::Keep => "rt_keep"@,
        RtFn::Remove => "rt_remove"@,
        RtFn::MapIndexed => "rt_map_indexed"@,
        RtFn::Zipmap => "rt_zipmap"@,
        RtFn::Juxt => "rt_juxt"@,
        RtFn::Comp => "rt_comp"@,
        RtFn::Partial => "rt_partial"@,
        RtFn::Complement => "rt_complement"@,
        RtFn::Concat => "rt_concat"@,
        RtFn::Range1 => "rt_range1"@,
        RtFn::Range2 => "rt_range2"@,
        RtFn::Range3 => "rt_range3"@,
        RtFn::Take => "rt_take"@,
        RtFn::Drop => "rt_drop"@,
        RtFn::Reverse => "rt_reverse"@,
        RtFn::Sort => "rt_sort"@,
        RtFn::SortBy => "rt_sort_by"@,
        RtFn::Keys => "rt_keys"@,
        RtFn::Vals => "rt_vals"@,
        RtFn::Merge => "rt_merge"@,
        RtFn::Update => "rt_update"@,
        RtFn::GetIn => "rt_get_in"@,
        RtFn::AssocIn => "rt_assoc_in"@,
        RtFn::IsNumber => "rt_is_number"@,
        RtFn::IsString => "rt_is_string"@,
        RtFn::IsKeyword => "rt_is_keyword"@,
        RtFn::IsSymbol => "rt_is_symbol"@,
        RtFn::IsBool => "rt_is_bool"@,
        RtFn::IsInt => "rt_is_int"@,
        RtFn::Prn => "rt_prn"@,
        RtFn::Print => "rt_print"@,
        RtFn::Atom => "rt_atom"@,
        RtFn::StrN => "rt_str_n"@,
        RtFn::PrintlnN => "rt_println_n"@,
        RtFn::WithOutStr => "rt_with_out_str"@,
        RtFn::Peek => "rt_peek"@,
        RtFn::Pop => "rt_pop"@,
        RtFn::Vec => "rt_vec"@,
        RtFn::Mapcat => "rt_mapcat"@,
        RtFn::IsEmpty => "rt_is_empty"@,
        RtFn::Repeatedly => "rt_repeatedly"@,
        RtFn::RegionStart => "rt_region_start"@,
        RtFn::RegionEnd => "rt_region_end"@,
        RtFn::RegionAllocVector => "rt_region_alloc_vector"@,
        RtFn::RegionAllocMap => "rt_region_alloc_map"@,
        RtFn::RegionAllocSet => "rt_region_alloc_set"@,
        RtFn::RegionAllocList => "rt_region_alloc_list"@,
        RtFn::RegionAllocCons => "rt_region_alloc_cons"@,
        RtFn::ValueTag => "rt_value_tag"@,
        RtFn::UnboxLong => "rt_unbox_long"@,
        RtFn::UnboxDouble => "rt_unbox_double"@,
        RtFn::BoxBool => "rt_box_bool"@,
        RtFn::Deopt => "rt_deopt"@,
        RtFn::KwIcFill => "rt_kw_ic_fill"@,
        RtFn::CallIc => "rt_call_ic"@,
        RtFn::OverflowError => "rt_overflow_error"@,
    }
}

/// The parameters of a bridge function.
pub open spec fn rt_params(f: RtFn) -> Seq<ClifTy> {
    match f {
        RtFn::Safepoint | RtFn::ConstNil | RtFn::ConstTrue | RtFn::ConstFalse | RtFn::RegionStart | RtFn::Deopt | RtFn::OverflowError => Seq::<ClifTy>::empty(),
        RtFn::ConstLong => seq![ClifTy::I64],
        RtFn::ConstDouble => seq![ClifTy::F64],
        RtFn::ConstChar => seq![ClifTy::I32],
        RtFn::ConstString | RtFn::ConstKeyword | RtFn::ConstSymbol | RtFn::AllocVector | RtFn::AllocMap | RtFn::AllocSet | RtFn::AllocList | RtFn::Juxt | RtFn::Comp | RtFn::Partial | RtFn::Concat | RtFn::Merge | RtFn::StrN | RtFn::PrintlnN => seq![ClifTy::Ptr, ClifTy::I64],
        RtFn::Truthiness | RtFn::Count | RtFn::First | RtFn::Rest | RtFn::Deref | RtFn::Println | RtFn::Pr | RtFn::IsNil | RtFn::IsVector | RtFn::IsMap | RtFn::IsSeq | RtFn::Str | RtFn::Throw | RtFn::ToSeq | RtFn::LazySeq | RtFn::Transient | RtFn::PersistentBang | RtFn::Frequencies | RtFn::Complement | RtFn::Range1 | RtFn::Reverse | RtFn::Sort | RtFn::Keys | RtFn::Vals | RtFn::IsNumber | RtFn::IsString | RtFn::IsKeyword | RtFn::IsSymbol | RtFn::IsBool | RtFn::IsInt | RtFn::Prn | RtFn::Print | RtFn::Atom | RtFn::WithOutStr | RtFn::Peek | RtFn::Pop | RtFn::Vec | RtFn::IsEmpty | RtFn::RegionEnd | RtFn::ValueTag | RtFn::UnboxLong | RtFn::UnboxDouble => seq![ClifTy::Ptr],
        RtFn::IntoFilter | RtFn::IntoMapcat | RtFn::IntoMap | RtFn::Assoc | RtFn::Try | RtFn::AssocBang | RtFn::Reduce3 | RtFn::Into3 | RtFn::Partition3 | RtFn::Range3 | RtFn::Update | RtFn::AssocIn | RtFn::RegionAllocCons => seq![ClifTy::Ptr, ClifTy::Ptr, ClifTy::Ptr],
        RtFn::Call | RtFn::RegionAllocVector | RtFn::RegionAllocMap | RtFn::RegionAllocSet | RtFn::RegionAllocList => seq![ClifTy::Ptr, ClifTy::Ptr, ClifTy::I64],
        RtFn::LoadGlobal | RtFn::LoadVar => seq![ClifTy::Ptr, ClifTy::I64, ClifTy::Ptr, ClifTy::I64],
        RtFn::LoadGlobalVersionedIc | RtFn::DefVar => seq![ClifTy::Ptr, ClifTy::I64, ClifTy::Ptr, ClifTy::I64, ClifTy::Ptr],
        RtFn::MakeFn | RtFn::MakeFnVariadic => seq![ClifTy::Ptr, ClifTy::I64, ClifTy::Ptr, ClifTy::I64, ClifTy::Ptr, ClifTy::I64],
        RtFn::MakeFnMulti => seq![ClifTy::Ptr, ClifTy::I64, ClifTy::Ptr, ClifTy::Ptr, ClifTy::Ptr, ClifTy::I64, ClifTy::Ptr, ClifTy::I64],
        RtFn::AtomSwap => seq![ClifTy::Ptr, ClifTy::Ptr, ClifTy::Ptr, ClifTy::I64],
        RtFn::WithBindings | RtFn::KwIcFill => seq![ClifTy::Ptr, ClifTy::I64, ClifTy::Ptr],
        RtFn::Partition4 => seq![ClifTy::Ptr, ClifTy::Ptr, ClifTy::Ptr, ClifTy::Ptr],
        RtFn::BoxBool => seq![ClifTy::I8],
        RtFn::CallIc => seq![ClifTy::Ptr, ClifTy::Ptr, ClifTy::I64, ClifTy::Ptr],
        _ => seq![ClifTy::Ptr, ClifTy::Ptr],
    }
}

/// The result of a bridge function.
pub open spec fn rt_result(f: RtFn) -> Option<ClifTy> {
    match f {
        RtFn::Safepoint => None,
        RtFn::Truthiness => Some(ClifTy::I8),
        RtFn::ValueTag | RtFn::UnboxLong => Some(ClifTy::I64),
        RtFn::UnboxDouble => Some(ClifTy::F64),
        _ => Some(ClifTy::Ptr),
    }
}

/// All bridge functions, in the order in which a module declares them.
pub open spec fn rt_order() -> Seq<RtFn> {
    seq![
        RtFn::Safepoint,
        RtFn::ConstNil,
        RtFn::ConstTrue,
        RtFn::ConstFalse,
        RtFn::ConstLong,
        RtFn::ConstDouble,
        RtFn::ConstChar,
        RtFn::ConstString,
        RtFn::ConstKeyword,
        RtFn::ConstSymbol,
        RtFn::Truthiness,
        RtFn::Add,
        RtFn::Sub,
        RtFn::Mul,
        RtFn::Div,
        RtFn::Rem,
        RtFn::Eq,
        RtFn::Lt,
        RtFn::Gt,
        RtFn::Lte,
        RtFn::Gte,
        RtFn::AllocVector,
        RtFn::AllocMap,
        RtFn::AllocSet,
        RtFn::AllocList,
        RtFn::AllocCons,
        RtFn::Get,
        RtFn::Count,
        RtFn::CountFilter,
        RtFn::IntoFilter,
        RtFn::IntoMapcat,
        RtFn::IntoMap,
        RtFn::First,
        RtFn::Rest,
        RtFn::Assoc,
        RtFn::Conj,
        RtFn::Call,
        RtFn::Deref,
        RtFn::Println,
        RtFn::Pr,
        RtFn::IsNil,
        RtFn::IsVector,
        RtFn::IsMap,
        RtFn::IsSeq,
        RtFn::Identical,
        RtFn::Str,
        RtFn::LoadGlobal,
        RtFn::LoadGlobalVersionedIc,
        RtFn::DefVar,
        RtFn::MakeFn,
        RtFn::MakeFnVariadic,
        RtFn::MakeFnMulti,
        RtFn::Throw,
        RtFn::Try,
        RtFn::Dissoc,
        RtFn::Disj,
        RtFn::Nth,
        RtFn::Contains,
        RtFn::ToSeq,
        RtFn::LazySeq,
        RtFn::Transient,
        RtFn::AssocBang,
        RtFn::ConjBang,
        RtFn::PersistentBang,
        RtFn::AtomReset,
        RtFn::AtomSwap,
        RtFn::Apply,
        RtFn::SetBang,
        RtFn::WithBindings,
        RtFn::LoadVar,
        RtFn::Reduce2,
        RtFn::Reduce3,
        RtFn::MapSeq,
        RtFn::Filter,
        RtFn::Mapv,
        RtFn::Filterv,
        RtFn::SomePred,
        RtFn::Every,
        RtFn::Into,
        RtFn::Into3,
        RtFn::GroupBy,
        RtFn::Partition2,
        RtFn::Partition3,
        RtFn::Partition4,
        RtFn::Frequencies,
        RtFn::Keep,
        RtFn::Remove,
        RtFn::MapIndexed,
        RtFn::Zipmap,
        RtFn::Juxt,
        RtFn::Comp,
        RtFn::Partial,
        RtFn::Complement,
        RtFn::Concat,
        RtFn::Range1,
        RtFn::Range2,
        RtFn::Range3,
        RtFn::Take,
        RtFn::Drop,
        RtFn::Reverse,
        RtFn::Sort,
        RtFn::SortBy,
        RtFn::Keys,
        RtFn::Vals,
        RtFn::Merge,
        RtFn::Update,
        RtFn::GetIn,
        RtFn::AssocIn,
        RtFn::IsNumber,
        RtFn::IsString,
        RtFn::IsKeyword,
        RtFn::IsSymbol,
        RtFn::IsBool,
        RtFn::IsInt,
        RtFn::Prn,
        RtFn::Print,
        RtFn::Atom,
        RtFn::StrN,
        RtFn::PrintlnN,
        RtFn::WithOutStr,
        RtFn::Peek,
        RtFn::Pop,
        RtFn::Vec,
        RtFn::Mapcat,
        RtFn::IsEmpty,
        RtFn::Repeatedly,
        RtFn::RegionStart,
        RtFn::RegionEnd,
        RtFn::RegionAllocVector,
        RtFn::RegionAllocMap,
        RtFn::RegionAllocSet,
        RtFn::RegionAllocList,
        RtFn::RegionAllocCons,
        RtFn::ValueTag,
        RtFn::UnboxLong,
        RtFn::UnboxDouble,
        RtFn::BoxBool,
        RtFn::Deopt,
        RtFn::KwIcFill,
        RtFn::CallIc,
        RtFn::OverflowError,
    ]
}

/// The position of a bridge function in the declaration order.
pub open spec fn rt_index(f: RtFn) -> int {
    match f {
        RtFn::Safepoint => 0,
        RtFn::ConstNil => 1,
        RtFn::ConstTrue => 2,
        RtFn::ConstFalse => 3,
        RtFn::ConstLong => 4,
        RtFn::ConstDouble => 5,
        RtFn::ConstChar => 6,
        RtFn::ConstString => 7,
        RtFn::ConstKeyword => 8,
        RtFn::ConstSymbol => 9,
        RtFn::Truthiness => 10,
        RtFn::Add => 11,
        RtFn::Sub => 12,
        RtFn::Mul => 13,
        RtFn::Div => 14,
        RtFn::Rem => 15,
        RtFn::Eq => 16,
        RtFn::Lt => 17,
        RtFn::Gt => 18,
        RtFn::Lte => 19,
        RtFn::Gte => 20,
        RtFn::AllocVector => 21,
        RtFn::AllocMap => 22,
        RtFn::AllocSet => 23,
        RtFn::AllocList => 24,
        RtFn::AllocCons => 25,
        RtFn::Get => 26,
        RtFn::Count => 27,
        RtFn::CountFilter => 28,
        RtFn::IntoFilter => 29,
        RtFn::IntoMapcat => 30,
        RtFn::IntoMap => 31,
        RtFn::First => 32,
        RtFn::Rest => 33,
        RtFn::Assoc => 34,
        RtFn::Conj => 35,
        RtFn::Call => 36,
        RtFn::Deref => 37,
        RtFn::Println => 38,
        RtFn::Pr => 39,
        RtFn::IsNil => 40,
        RtFn::IsVector => 41,
        RtFn::IsMap => 42,
        RtFn::IsSeq => 43,
        RtFn::Identical => 44,
        RtFn::Str => 45,
        RtFn::LoadGlobal => 46,
        RtFn::LoadGlobalVersionedIc => 47,
        RtFn::DefVar => 48,
        RtFn::MakeFn => 49,
        RtFn::MakeFnVariadic => 50,
        RtFn::MakeFnMulti => 51,
        RtFn::Throw => 52,
        RtFn::Try => 53,
        RtFn::Dissoc => 54,
        RtFn::Disj => 55,
        RtFn::Nth => 56,
        RtFn::Contains => 57,
        RtFn::ToSeq => 58,
        RtFn::LazySeq => 59,
        RtFn::Transient => 60,
        RtFn::AssocBang => 61,
        RtFn::ConjBang => 62,
        RtFn::PersistentBang => 63,
        RtFn::AtomReset => 64,
        RtFn::AtomSwap => 65,
        RtFn::Apply => 66,
        RtFn::SetBang => 67,
        RtFn::WithBindings => 68,
        RtFn::LoadVar => 69,
        RtFn::Reduce2 => 70,
        RtFn::Reduce3 => 71,
        RtFn::MapSeq => 72,
        RtFn::Filter => 73,
        RtFn::Mapv => 74,
        RtFn::Filterv => 75,
        RtFn::SomePred => 76,
        RtFn::Every => 77,
        RtFn::Into => 78,
        RtFn::Into3 => 79,
        RtFn::GroupBy => 80,
        RtFn::Partition2 => 81,
        RtFn::Partition3 => 82,
        RtFn::Partition4 => 83,
        RtFn::Frequencies => 84,
        RtFn::Keep => 85,
        RtFn::Remove => 86,
        RtFn::MapIndexed => 87,
        RtFn::Zipmap => 88,
        RtFn::Juxt => 89,
        RtFn::Comp => 90,
        RtFn::Partial => 91,
        RtFn::Complement => 92,
        RtFn::Concat => 93,
        RtFn::Range1 => 94,
        RtFn::Range2 => 95,
        RtFn::Range3 => 96,
        RtFn::Take => 97,
        RtFn::Drop => 98,
        RtFn::Reverse => 99,
        RtFn::Sort => 100,
        RtFn::SortBy => 101,
        RtFn::Keys => 102,
        RtFn::Vals => 103,
        RtFn::Merge => 104,
        RtFn::Update => 105,
        RtFn::GetIn => 106,
        RtFn::AssocIn => 107,
        RtFn::IsNumber => 108,
        RtFn::IsString => 109,
        RtFn::IsKeyword => 110,
        RtFn::IsSymbol => 111,
        RtFn::IsBool => 112,
        RtFn::IsInt => 113,
        RtFn::Prn => 114,
        RtFn::Print => 115,
        RtFn::Atom => 116,
        RtFn::StrN => 117,
        RtFn::PrintlnN => 118,
        RtFn::WithOutStr => 119,
        RtFn::Peek => 120,
        RtFn::Pop => 121,
        RtFn::Vec => 122,
        RtFn::Mapcat => 123,
        RtFn::IsEmpty => 124,
        RtFn::Repeatedly => 125,
        RtFn::RegionStart => 126,
        RtFn::RegionEnd => 127,
        RtFn::RegionAllocVector => 128,
        RtFn::RegionAllocMap => 129,
        RtFn::RegionAllocSet => 130,
        RtFn::RegionAllocList => 131,
        RtFn::RegionAllocCons => 132,
        RtFn::ValueTag => 133,
        RtFn::UnboxLong => 134,
        RtFn::UnboxDouble => 135,
        RtFn::BoxBool => 136,
        RtFn::Deopt => 137,
        RtFn::KwIcFill => 138,
        RtFn::CallIc => 139,
        RtFn::OverflowError => 140,
    }
}

/// The position in the order of the bridge that a symbol stands for.
pub open spec fn symbol_position(t: Seq<char>) -> int {
    if t.len() == 5 {
        if t[3] == 'e' {
            16
        } else if t[3] == 'g' {
            18
        } else if t[3] == 'l' {
            17
        } else {
            39
        }
    } else if t.len() == 6 {
        if t[5] == 'b' {
            12
        } else if t[5] == 'c' {
            122
        } else if t[5] == 'd' {
            11
        } else if t[5] == 'e' {
            if t[3] == 'g' {
                20
            } else {
                19
            }
        } else if t[5] == 'h' {
            56
        } else if t[5] == 'l' {
            13
        } else if t[5] == 'm' {
            15
        } else if t[5] == 'n' {
            114
        } else if t[5] == 'p' {
            if t[3] == 'm' {
                72
            } else {
                121
            }
        } else if t[5] == 'q' {
            58
        } else if t[5] == 'r' {
            45
        } else if t[5] == 't' {
            26
        } else if t[5] == 'v' {
            14
        } else {
            53
        }
    } else if t.len() == 7 {
        if t[5] == 'e' {
            if t[3] == 'k' {
                85
            } else {
                120
            }
        } else if t[5] == 'k' {
            97
        } else if t[5] == 'l' {
            if t[3] == 'c' {
                36
            } else {
                103
            }
        } else if t[5] == 'm' {
            if t[3] == 'c' {
                90
            } else {
                76
            }
        } else if t[5] == 'n' {
            35
        } else if t[5] == 'o' {
            if t[3] == 'a' {
                116
            } else {
                98
            }
        } else if t[5] == 'p' {
            74
        } else if t[5] == 'r' {
            100
        } else if t[5] == 's' {
            if t[3] == 'd' {
                55
            } else {
                33
            }
        } else if t[5] == 't' {
            78
        } else if t[5] == 'x' {
            89
        } else {
            102
        }
    } else if t.len() == 8 {
        if t[3] == 'a' {
            if t[4] == 'p' {
                66
            } else {
                34
            }
        } else if t[3] == 'c' {
            27
        } else if t[3] == 'd' {
            if t[5] == 'o' {
                137
            } else {
                37
            }
        } else if t[3] == 'e' {
            77
        } else if t[3] == 'f' {
            32
        } else if t[3] == 'i' {
            79
        } else if t[3] == 'm' {
            104
        } else if t[3] == 'p' {
            115
        } else if t[3] == 's' {
            117
        } else {
            52
        }
    } else if t.len() == 9 {
        if t[6] == '_' {
            106
        } else if t[6] == 'a' {
            105
        } else if t[6] == 'c' {
            if t[3] == 'c' {
                93
            } else {
                123
            }
        } else if t[6] == 'g' {
            if t[8] == '1' {
                94
            } else if t[8] == '2' {
                95
            } else {
                96
            }
        } else if t[6] == 'i' {
            113
        } else if t[6] == 'm' {
            if t[3] == 'i' {
                42
            } else {
                88
            }
        } else if t[6] == 'n' {
            40
        } else if t[6] == 'o' {
            86
        } else if t[6] == 's' {
            if t[3] == 'd' {
                54
            } else {
                43
            }
        } else {
            73
        }
    } else if t.len() == 10 {
        if t[5] == '_' {
            112
        } else if t[5] == 'd' {
            if t[9] == '2' {
                70
            } else {
                71
            }
        } else if t[5] == 'f' {
            48
        } else if t[5] == 'i' {
            38
        } else if t[5] == 'k' {
            49
        } else if t[5] == 'l' {
            if t[3] == 'c' {
                139
            } else {
                75
            }
        } else if t[5] == 'r' {
            if t[3] == 'p' {
                91
            } else {
                101
            }
        } else {
            99
        }
    } else if t.len() == 11 {
        if t[3] == 'a' {
            107
        } else if t[3] == 'b' {
            136
        } else if t[3] == 'c' {
            57
        } else if t[3] == 'g' {
            80
        } else if t[3] == 'i' {
            if t[4] == 'n' {
                31
            } else {
                124
            }
        } else if t[3] == 'l' {
            if t[4] == 'a' {
                59
            } else {
                69
            }
        } else {
            67
        }
    } else if t.len() == 12 {
        if t[9] == 'a' {
            62
        } else if t[9] == 'b' {
            if t[6] == 'n' {
                108
            } else {
                111
            }
        } else if t[9] == 'c' {
            44
        } else if t[9] == 'e' {
            60
        } else if t[9] == 'i' {
            if t[3] == 'i' {
                109
            } else {
                0
            }
        } else if t[9] == 'm' {
            22
        } else if t[9] == 'n' {
            if t[3] == 'c' {
                1
            } else {
                118
            }
        } else if t[9] == 's' {
            23
        } else if t[9] == 't' {
            if t[3] == 'i' {
                41
            } else {
                133
            }
        } else {
            65
        }
    } else if t.len() == 13 {
        if t[5] == '_' {
            if t[3] == 'i' {
                110
            } else {
                138
            }
        } else if t[5] == 'b' {
            134
        } else if t[5] == 'g' {
            127
        } else if t[5] == 'l' {
            if t[9] == 'c' {
                25
            } else {
                24
            }
        } else if t[5] == 'm' {
            92
        } else if t[5] == 'n' {
            if t[9] == 'c' {
                6
            } else if t[9] == 'l' {
                4
            } else {
                2
            }
        } else if t[5] == 'o' {
            64
        } else if t[5] == 'p' {
            125
        } else if t[5] == 'r' {
            if t[12] == '2' {
                81
            } else if t[12] == '3' {
                82
            } else {
                83
            }
        } else if t[5] == 's' {
            61
        } else {
            10
        }
    } else if t.len() == 14 {
        if t[8] == '_' {
            3
        } else if t[8] == 'e' {
            84
        } else if t[8] == 'f' {
            29
        } else if t[8] == 'g' {
            46
        } else if t[8] == 'm' {
            30
        } else {
            87
        }
    } else if t.len() == 15 {
        if t[9] == '_' {
            126
        } else if t[9] == 'd' {
            if t[3] == 'c' {
                5
            } else {
                135
            }
        } else if t[9] == 'f' {
            28
        } else if t[9] == 's' {
            if t[10] == 't' {
                7
            } else {
                9
            }
        } else if t[9] == 'u' {
            119
        } else {
            21
        }
    } else if t.len() == 16 {
        if t[3] == 'c' {
            8
        } else if t[3] == 'm' {
            51
        } else {
            68
        }
    } else if t.len() == 17 {
        140
    } else if t.len() == 18 {
        63
    } else if t.len() == 19 {
        if t[16] == 'd' {
            50
        } else if t[16] == 'm' {
            129
        } else {
            130
        }
    } else if t.len() == 20 {
        if t[16] == 'c' {
            132
        } else {
            131
        }
    } else if t.len() == 22 {
        128
    } else {
        47
    }
}

/// Each symbol stands for one function, and none has a zero byte.
pub proof fn symbols_are_distinct(f: RtFn)
    ensures
        symbol_position(rt_symbol(f)) == rt_index(f),
        !rt_symbol(f).contains('\0'),
{
    match f {
        RtFn::Safepoint => {
            reveal_strlit("rt_safepoint");
            assert(symbol_position("rt_safepoint"@) == 0);
            assert(!"rt_safepoint"@.contains('\0'));
        },
        RtFn::ConstNil => {
            reveal_strlit("rt_const_nil");
            assert(symbol_position("rt_const_nil"@) == 1);
            assert(!"rt_const_nil"@.contains('\0'));
        },
        RtFn::ConstTrue => {
            reveal_strlit("rt_const_true");
            assert(symbol_position("rt_const_true"@) == 2);
            assert(!"rt_const_true"@.contains('\0'));
        },
        RtFn::ConstFalse => {
            reveal_strlit("rt_const_false");
            assert(symbol_position("rt_const_false"@) == 3);
            assert(!"rt_const_false"@.contains('\0'));
        },
        RtFn::ConstLong => {
            reveal_strlit("rt_const_long");
            assert(symbol_position("rt_const_long"@) == 4);
            assert(!"rt_const_long"@.contains('\0'));
        },
        RtFn::ConstDouble => {
            reveal_strlit("rt_const_double");
            assert(symbol_position("rt_const_double"@) == 5);
            assert(!"rt_const_double"@.contains('\0'));
        },
        RtFn::ConstChar => {
            reveal_strlit("rt_const_char");
            assert(symbol_position("rt_const_char"@) == 6);
            assert(!"rt_const_char"@.contains('\0'));
        },
        RtFn::ConstString => {
            reveal_strlit("rt_const_string");
            assert(symbol_position("rt_const_string"@) == 7);
            assert(!"rt_const_string"@.contains('\0'));
        },
        RtFn::ConstKeyword => {
            reveal_strlit("rt_const_keyword");
            assert(symbol_position("rt_const_keyword"@) == 8);
            assert(!"rt_const_keyword"@.contains('\0'));
        },
        RtFn::ConstSymbol => {
            reveal_strlit("rt_const_symbol");
            assert(symbol_position("rt_const_symbol"@) == 9);
            assert(!"rt_const_symbol"@.contains('\0'));
        },
        RtFn::Truthiness => {
            reveal_strlit("rt_truthiness");
            assert(symbol_position("rt_truthiness"@) == 10);
            assert(!"rt_truthiness"@.contains('\0'));
        },
        RtFn::Add => {
            reveal_strlit("rt_add");
            assert(symbol_position("rt_add"@) == 11);
            assert(!"rt_add"@.contains('\0'));
        },
        RtFn::Sub => {
            reveal_strlit("rt_sub");
            assert(symbol_position("rt_sub"@) == 12);
            assert(!"rt_sub"@.contains('\0'));
        },
        RtFn::Mul => {
            reveal_strlit("rt_mul");
            assert(symbol_position("rt_mul"@) == 13);
            assert(!"rt_mul"@.contains('\0'));
        },
        RtFn::Div => {
            reveal_strlit("rt_div");
            assert(symbol_position("rt_div"@) == 14);
            assert(!"rt_div"@.contains('\0'));
        },
        RtFn::Rem => {
            reveal_strlit("rt_rem");
            assert(symbol_position("rt_rem"@) == 15);
            assert(!"rt_rem"@.contains('\0'));
        },
        RtFn::Eq => {
            reveal_strlit("rt_eq");
            assert(symbol_position("rt_eq"@) == 16);
            assert(!"rt_eq"@.contains('\0'));
        },
        RtFn::Lt => {
            reveal_strlit("rt_lt");
            assert(symbol_position("rt_lt"@) == 17);
            assert(!"rt_lt"@.contains('\0'));
        },
        RtFn::Gt => {
            reveal_strlit("rt_gt");
            assert(symbol_position("rt_gt"@) == 18);
            assert(!"rt_gt"@.contains('\0'));
        },
        RtFn::Lte => {
            reveal_strlit("rt_lte");
            assert(symbol_position("rt_lte"@) == 19);
            assert(!"rt_lte"@.contains('\0'));
        },
        RtFn::Gte => {
            reveal_strlit("rt_gte");
            assert(symbol_position("rt_gte"@) == 20);
            assert(!"rt_gte"@.contains('\0'));
        },
        RtFn::AllocVector => {
            reveal_strlit("rt_alloc_vector");
            assert(symbol_position("rt_alloc_vector"@) == 21);
            assert(!"rt_alloc_vector"@.contains('\0'));
        },
        RtFn::AllocMap => {
            reveal_strlit("rt_alloc_map");
            assert(symbol_position("rt_alloc_map"@) == 22);
            assert(!"rt_alloc_map"@.contains('\0'));
        },
        RtFn::AllocSet => {
            reveal_strlit("rt_alloc_set");
            assert(symbol_position("rt_alloc_set"@) == 23);
            assert(!"rt_alloc_set"@.contains('\0'));
        },
        RtFn::AllocList => {
            reveal_strlit("rt_alloc_list");
            assert(symbol_position("rt_alloc_list"@) == 24);
            assert(!"rt_alloc_list"@.contains('\0'));
        },
        RtFn::AllocCons => {
            reveal_strlit("rt_alloc_cons");
            assert(symbol_position("rt_alloc_cons"@) == 25);
            assert(!"rt_alloc_cons"@.contains('\0'));
        },
        RtFn::Get => {
            reveal_strlit("rt_get");
            assert(symbol_position("rt_get"@) == 26);
            assert(!"rt_get"@.contains('\0'));
        },
        RtFn::Count => {
            reveal_strlit("rt_count");
            assert(symbol_position("rt_count"@) == 27);
            assert(!"rt_count"@.contains('\0'));
        },
        RtFn::CountFilter => {
            reveal_strlit("rt_count_filter");
            assert(symbol_position("rt_count_filter"@) == 28);
            assert(!"rt_count_filter"@.contains('\0'));
        },
        RtFn::IntoFilter => {
            reveal_strlit("rt_into_filter");
            assert(symbol_position("rt_into_filter"@) == 29);
            assert(!"rt_into_filter"@.contains('\0'));
        },
        RtFn::IntoMapcat => {
            reveal_strlit("rt_into_mapcat");
            assert(symbol_position("rt_into_mapcat"@) == 30);
            assert(!"rt_into_mapcat"@.contains('\0'));
        },
        RtFn::IntoMap => {
            reveal_strlit("rt_into_map");
            assert(symbol_position("rt_into_map"@) == 31);
            assert(!"rt_into_map"@.contains('\0'));
        },
        RtFn::First => {
            reveal_strlit("rt_first");
            assert(symbol_position("rt_first"@) == 32);
            assert(!"rt_first"@.contains('\0'));
        },
        RtFn::Rest => {
            reveal_strlit("rt_rest");
            assert(symbol_position("rt_rest"@) == 33);
            assert(!"rt_rest"@.contains('\0'));
        },
        RtFn::Assoc => {
            reveal_strlit("rt_assoc");
            assert(symbol_position("rt_assoc"@) == 34);
            assert(!"rt_assoc"@.contains('\0'));
        },
        RtFn::Conj => {
            reveal_strlit("rt_conj");
            assert(symbol_position("rt_conj"@) == 35);
            assert(!"rt_conj"@.contains('\0'));
        },
        RtFn::Call => {
            reveal_strlit("rt_call");
            assert(symbol_position("rt_call"@) == 36);
            assert(!"rt_call"@.contains('\0'));
        },
        RtFn::Deref => {
            reveal_strlit("rt_deref");
            assert(symbol_position("rt_deref"@) == 37);
            assert(!"rt_deref"@.contains('\0'));
        },
        RtFn::Println => {
            reveal_strlit("rt_println");
            assert(symbol_position("rt_println"@) == 38);
            assert(!"rt_println"@.contains('\0'));
        },
        RtFn::Pr => {
            reveal_strlit("rt_pr");
            assert(symbol_position("rt_pr"@) == 39);
            assert(!"rt_pr"@.contains('\0'));
        },
        RtFn::IsNil => {
            reveal_strlit("rt_is_nil");
            assert(symbol_position("rt_is_nil"@) == 40);
            assert(!"rt_is_nil"@.contains('\0'));
        },
        RtFn::IsVector => {
            reveal_strlit("rt_is_vector");
            assert(symbol_position("rt_is_vector"@) == 41);
            assert(!"rt_is_vector"@.contains('\0'));
        },
        RtFn::IsMap => {
            reveal_strlit("rt_is_map");
            assert(symbol_position("rt_is_map"@) == 42);
            assert(!"rt_is_map"@.contains('\0'));
        },
        RtFn::IsSeq => {
            reveal_strlit("rt_is_seq");
            assert(symbol_position("rt_is_seq"@) == 43);
            assert(!"rt_is_seq"@.contains('\0'));
        },
        RtFn::Identical => {
            reveal_strlit("rt_identical");
            assert(symbol_position("rt_identical"@) == 44);
            assert(!"rt_identical"@.contains('\0'));
        },
        RtFn::Str => {
            reveal_strlit("rt_str");
            assert(symbol_position("rt_str"@) == 45);
            assert(!"rt_str"@.contains('\0'));
        },
        RtFn::LoadGlobal => {
            reveal_strlit("rt_load_global");
            assert(symbol_position("rt_load_global"@) == 46);
            assert(!"rt_load_global"@.contains('\0'));
        },
        RtFn::LoadGlobalVersionedIc => {
            reveal_strlit("rt_load_global_versioned_ic");
            assert(symbol_position("rt_load_global_versioned_ic"@) == 47);
            assert(!"rt_load_global_versioned_ic"@.contains('\0'));
        },
        RtFn::DefVar => {
            reveal_strlit("rt_def_var");
            assert(symbol_position("rt_def_var"@) == 48);
            assert(!"rt_def_var"@.contains('\0'));
        },
        RtFn::MakeFn => {
            reveal_strlit("rt_make_fn");
            assert(symbol_position("rt_make_fn"@) == 49);
            assert(!"rt_make_fn"@.contains('\0'));
        },
        RtFn::MakeFnVariadic => {
            reveal_strlit("rt_make_fn_variadic");
            assert(symbol_position("rt_make_fn_variadic"@) == 50);
            assert(!"rt_make_fn_variadic"@.contains('\0'));
        },
        RtFn::MakeFnMulti => {
            reveal_strlit("rt_make_fn_multi");
            assert(symbol_position("rt_make_fn_multi"@) == 51);
            assert(!"rt_make_fn_multi"@.contains('\0'));
        },
        RtFn::Throw => {
            reveal_strlit("rt_throw");
            assert(symbol_position("rt_throw"@) == 52);
            assert(!"rt_throw"@.contains('\0'));
        },
        RtFn::Try => {
            reveal_strlit("rt_try");
            assert(symbol_position("rt_try"@) == 53);
            assert(!"rt_try"@.contains('\0'));
        },
        RtFn::Dissoc => {
            reveal_strlit("rt_dissoc");
            assert(symbol_position("rt_dissoc"@) == 54);
            assert(!"rt_dissoc"@.contains('\0'));
        },
        RtFn::Disj => {
            reveal_strlit("rt_disj");
            assert(symbol_position("rt_disj"@) == 55);
            assert(!"rt_disj"@.contains('\0'));
        },
        RtFn::Nth => {
            reveal_strlit("rt_nth");
            assert(symbol_position("rt_nth"@) == 56);
            assert(!"rt_nth"@.contains('\0'));
        },
        RtFn::Contains => {
            reveal_strlit("rt_contains");
            assert(symbol_position("rt_contains"@) == 57);
            assert(!"rt_contains"@.contains('\0'));
        },
        RtFn::ToSeq => {
            reveal_strlit("rt_seq");
            assert(symbol_position("rt_seq"@) == 58);
            assert(!"rt_seq"@.contains('\0'));
        },
        RtFn::LazySeq => {
            reveal_strlit("rt_lazy_seq");
            assert(symbol_position("rt_lazy_seq"@) == 59);
            assert(!"rt_lazy_seq"@.contains('\0'));
        },
        RtFn::Transient => {
            reveal_strlit("rt_transient");
            assert(symbol_position("rt_transient"@) == 60);
            assert(!"rt_transient"@.contains('\0'));
        },
        RtFn::AssocBang => {
            reveal_strlit("rt_assoc_bang");
            assert(symbol_position("rt_assoc_bang"@) == 61);
            assert(!"rt_assoc_bang"@.contains('\0'));
        },
        RtFn::ConjBang => {
            reveal_strlit("rt_conj_bang");
            assert(symbol_position("rt_conj_bang"@) == 62);
            assert(!"rt_conj_bang"@.contains('\0'));
        },
        RtFn::PersistentBang => {
            reveal_strlit("rt_persistent_bang");
            assert(symbol_position("rt_persistent_bang"@) == 63);
            assert(!"rt_persistent_bang"@.contains('\0'));
        },
        RtFn::AtomReset => {
            reveal_strlit("rt_atom_reset");
            assert(symbol_position("rt_atom_reset"@) == 64);
            assert(!"rt_atom_reset"@.contains('\0'));
        },
        RtFn::AtomSwap => {
            reveal_strlit("rt_atom_swap");
            assert(symbol_position("rt_atom_swap"@) == 65);
            assert(!"rt_atom_swap"@.contains('\0'));
        },
        RtFn::Apply => {
            reveal_strlit("rt_apply");
            assert(symbol_position("rt_apply"@) == 66);
            assert(!"rt_apply"@.contains('\0'));
        },
        RtFn::SetBang => {
            reveal_strlit("rt_set_bang");
            assert(symbol_position("rt_set_bang"@) == 67);
            assert(!"rt_set_bang"@.contains('\0'));
        },
        RtFn::WithBindings => {
            reveal_strlit("rt_with_bindings");
            assert(symbol_position("rt_with_bindings"@) == 68);
            assert(!"rt_with_bindings"@.contains('\0'));
        },
        RtFn::LoadVar => {
            reveal_strlit("rt_load_var");
            assert(symbol_position("rt_load_var"@) == 69);
            assert(!"rt_load_var"@.contains('\0'));
        },
        RtFn::Reduce2 => {
            reveal_strlit("rt_reduce2");
            assert(symbol_position("rt_reduce2"@) == 70);
            assert(!"rt_reduce2"@.contains('\0'));
        },
        RtFn::Reduce3 => {
            reveal_strlit("rt_reduce3");
            assert(symbol_position("rt_reduce3"@) == 71);
            assert(!"rt_reduce3"@.contains('\0'));
        },
        RtFn::MapSeq => {
            reveal_strlit("rt_map");
            assert(symbol_position("rt_map"@) == 72);
            assert(!"rt_map"@.contains('\0'));
        },
        RtFn::Filter => {
            reveal_strlit("rt_filter");
            assert(symbol_position("rt_filter"@) == 73);
            assert(!"rt_filter"@.contains('\0'));
        },
        RtFn::Mapv => {
            reveal_strlit("rt_mapv");
            assert(symbol_position("rt_mapv"@) == 74);
            assert(!"rt_mapv"@.contains('\0'));
        },
        RtFn::Filterv => {
            reveal_strlit("rt_filterv");
            assert(symbol_position("rt_filterv"@) == 75);
            assert(!"rt_filterv"@.contains('\0'));
        },
        RtFn::SomePred => {
            reveal_strlit("rt_some");
            assert(symbol_position("rt_some"@) == 76);
            assert(!"rt_some"@.contains('\0'));
        },
        RtFn::Every => {
            reveal_strlit("rt_every");
            assert(symbol_position("rt_every"@) == 77);
            assert(!"rt_every"@.contains('\0'));
        },
        RtFn::Into => {
            reveal_strlit("rt_into");
            assert(symbol_position("rt_into"@) == 78);
            assert(!"rt_into"@.contains('\0'));
        },
        RtFn::Into3 => {
            reveal_strlit("rt_into3");
            assert(symbol_position("rt_into3"@) == 79);
            assert(!"rt_into3"@.contains('\0'));
        },
        RtFn::GroupBy => {
            reveal_strlit("rt_group_by");
            assert(symbol_position("rt_group_by"@) == 80);
            assert(!"rt_group_by"@.contains('\0'));
        },
        RtFn::Partition2 => {
            reveal_strlit("rt_partition2");
            assert(symbol_position("rt_partition2"@) == 81);
            assert(!"rt_partition2"@.contains('\0'));
        },
        RtFn::Partition3 => {
            reveal_strlit("rt_partition3");
            assert(symbol_position("rt_partition3"@) == 82);
            assert(!"rt_partition3"@.contains('\0'));
        },
        RtFn::Partition4 => {
            reveal_strlit("rt_partition4");
            assert(symbol_position("rt_partition4"@) == 83);
            assert(!"rt_partition4"@.contains('\0'));
        },
        RtFn::Frequencies => {
            reveal_strlit("rt_frequencies");
            assert(symbol_position("rt_frequencies"@) == 84);
            assert(!"rt_frequencies"@.contains('\0'));
        },
        RtFn::Keep => {
            reveal_strlit("rt_keep");
            assert(symbol_position("rt_keep"@) == 85);
            assert(!"rt_keep"@.contains('\0'));
        },
        RtFn::Remove => {
            reveal_strlit("rt_remove");
            assert(symbol_position("rt_remove"@) == 86);
            assert(!"rt_remove"@.contains('\0'));
        },
        RtFn::MapIndexed => {
            reveal_strlit("rt_map_indexed");
            assert(symbol_position("rt_map_indexed"@) == 87);
            assert(!"rt_map_indexed"@.contains('\0'));
        },
        RtFn::Zipmap => {
            reveal_strlit("rt_zipmap");
            assert(symbol_position("rt_zipmap"@) == 88);
            assert(!"rt_zipmap"@.contains('\0'));
        },
        RtFn::Juxt => {
            reveal_strlit("rt_juxt");
            assert(symbol_position("rt_juxt"@) == 89);
            assert(!"rt_juxt"@.contains('\0'));
        },
        RtFn::Comp => {
            reveal_strlit("rt_comp");
            assert(symbol_position("rt_comp"@) == 90);
            assert(!"rt_comp"@.contains('\0'));
        },
        RtFn::Partial => {
            reveal_strlit("rt_partial");
            assert(symbol_position("rt_partial"@) == 91);
            assert(!"rt_partial"@.contains('\0'));
        },
        RtFn::Complement => {
            reveal_strlit("rt_complement");
            assert(symbol_position("rt_complement"@) == 92);
            assert(!"rt_complement"@.contains('\0'));
        },
        RtFn::Concat => {
            reveal_strlit("rt_concat");
            assert(symbol_position("rt_concat"@) == 93);
            assert(!"rt_concat"@.contains('\0'));
        },
        RtFn::Range1 => {
            reveal_strlit("rt_range1");
            assert(symbol_position("rt_range1"@) == 94);
            assert(!"rt_range1"@.contains('\0'));
        },
        RtFn::Range2 => {
            reveal_strlit("rt_range2");
            assert(symbol_position("rt_range2"@) == 95);
            assert(!"rt_range2"@.contains('\0'));
        },
        RtFn::Range3 => {
            reveal_strlit("rt_range3");
            assert(symbol_position("rt_range3"@) == 96);
            assert(!"rt_range3"@.contains('\0'));
        },
        RtFn::Take => {
            reveal_strlit("rt_take");
            assert(symbol_position("rt_take"@) == 97);
            assert(!"rt_take"@.contains('\0'));
        },
        RtFn::Drop => {
            reveal_strlit("rt_drop");
            assert(symbol_position("rt_drop"@) == 98);
            assert(!"rt_drop"@.contains('\0'));
        },
        RtFn::Reverse => {
            reveal_strlit("rt_reverse");
            assert(symbol_position("rt_reverse"@) == 99);
            assert(!"rt_reverse"@.contains('\0'));
        },
        RtFn::Sort => {
            reveal_strlit("rt_sort");
            assert(symbol_position("rt_sort"@) == 100);
            assert(!"rt_sort"@.contains('\0'));
        },
        RtFn::SortBy => {
            reveal_strlit("rt_sort_by");
            assert(symbol_position("rt_sort_by"@) == 101);
            assert(!"rt_sort_by"@.contains('\0'));
        },
        RtFn::Keys => {
            reveal_strlit("rt_keys");
            assert(symbol_position("rt_keys"@) == 102);
            assert(!"rt_keys"@.contains('\0'));
        },
        RtFn::Vals => {
            reveal_strlit("rt_vals");
            assert(symbol_position("rt_vals"@) == 103);
            assert(!"rt_vals"@.contains('\0'));
        },
        RtFn::Merge => {
            reveal_strlit("rt_merge");
            assert(symbol_position("rt_merge"@) == 104);
            assert(!"rt_merge"@.contains('\0'));
        },
        RtFn::Update => {
            reveal_strlit("rt_update");
            assert(symbol_position("rt_update"@) == 105);
            assert(!"rt_update"@.contains('\0'));
        },
        RtFn::GetIn => {
            reveal_strlit("rt_get_in");
            assert(symbol_position("rt_get_in"@) == 106);
            assert(!"rt_get_in"@.contains('\0'));
        },
        RtFn::AssocIn => {
            reveal_strlit("rt_assoc_in");
            assert(symbol_position("rt_assoc_in"@) == 107);
            assert(!"rt_assoc_in"@.contains('\0'));
        },
        RtFn::IsNumber => {
            reveal_strlit("rt_is_number");
            assert(symbol_position("rt_is_number"@) == 108);
            assert(!"rt_is_number"@.contains('\0'));
        },
        RtFn::IsString => {
            reveal_strlit("rt_is_string");
            assert(symbol_position("rt_is_string"@) == 109);
            assert(!"rt_is_string"@.contains('\0'));
        },
        RtFn::IsKeyword => {
            reveal_strlit("rt_is_keyword");
            assert(symbol_position("rt_is_keyword"@) == 110);
            assert(!"rt_is_keyword"@.contains('\0'));
        },
        RtFn::IsSymbol => {
            reveal_strlit("rt_is_symbol");
            assert(symbol_position("rt_is_symbol"@) == 111);
            assert(!"rt_is_symbol"@.contains('\0'));
        },
        RtFn::IsBool => {
            reveal_strlit("rt_is_bool");
            assert(symbol_position("rt_is_bool"@) == 112);
            assert(!"rt_is_bool"@.contains('\0'));
        },
        RtFn::IsInt => {
            reveal_strlit("rt_is_int");
            assert(symbol_position("rt_is_int"@) == 113);
            assert(!"rt_is_int"@.contains('\0'));
        },
        RtFn::Prn => {
            reveal_strlit("rt_prn");
            assert(symbol_position("rt_prn"@) == 114);
            assert(!"rt_prn"@.contains('\0'));
        },
        RtFn::Print => {
            reveal_strlit("rt_print");
            assert(symbol_position("rt_print"@) == 115);
            assert(!"rt_print"@.contains('\0'));
        },
        RtFn::Atom => {
            reveal_strlit("rt_atom");
            assert(symbol_position("rt_atom"@) == 116);
            assert(!"rt_atom"@.contains('\0'));
        },
        RtFn::StrN => {
            reveal_strlit("rt_str_n");
            assert(symbol_position("rt_str_n"@) == 117);
            assert(!"rt_str_n"@.contains('\0'));
        },
        RtFn::PrintlnN => {
            reveal_strlit("rt_println_n");
            assert(symbol_position("rt_println_n"@) == 118);
            assert(!"rt_println_n"@.contains('\0'));
        },
        RtFn::WithOutStr => {
            reveal_strlit("rt_with_out_str");
            assert(symbol_position("rt_with_out_str"@) == 119);
            assert(!"rt_with_out_str"@.contains('\0'));
        },
        RtFn::Peek => {
            reveal_strlit("rt_peek");
            assert(symbol_position("rt_peek"@) == 120);
            assert(!"rt_peek"@.contains('\0'));
        },
        RtFn::Pop => {
            reveal_strlit("rt_pop");
            assert(symbol_position("rt_pop"@) == 121);
            assert(!"rt_pop"@.contains('\0'));
        },
        RtFn::Vec => {
            reveal_strlit("rt_vec");
            assert(symbol_position("rt_vec"@) == 122);
            assert(!"rt_vec"@.contains('\0'));
        },
        RtFn::Mapcat => {
            reveal_strlit("rt_mapcat");
            assert(symbol_position("rt_mapcat"@) == 123);
            assert(!"rt_mapcat"@.contains('\0'));
        },
        RtFn::IsEmpty => {
            reveal_strlit("rt_is_empty");
            assert(symbol_position("rt_is_empty"@) == 124);
            assert(!"rt_is_empty"@.contains('\0'));
        },
        RtFn::Repeatedly => {
            reveal_strlit("rt_repeatedly");
            assert(symbol_position("rt_repeatedly"@) == 125);
            assert(!"rt_repeatedly"@.contains('\0'));
        },
        RtFn::RegionStart => {
            reveal_strlit("rt_region_start");
            assert(symbol_position("rt_region_start"@) == 126);
            assert(!"rt_region_start"@.contains('\0'));
        },
        RtFn::RegionEnd => {
            reveal_strlit("rt_region_end");
            assert(symbol_position("rt_region_end"@) == 127);
            assert(!"rt_region_end"@.contains('\0'));
        },
        RtFn::RegionAllocVector => {
            reveal_strlit("rt_region_alloc_vector");
            assert(symbol_position("rt_region_alloc_vector"@) == 128);
            assert(!"rt_region_alloc_vector"@.contains('\0'));
        },
        RtFn::RegionAllocMap => {
            reveal_strlit("rt_region_alloc_map");
            assert(symbol_position("rt_region_alloc_map"@) == 129);
            assert(!"rt_region_alloc_map"@.contains('\0'));
        },
        RtFn::RegionAllocSet => {
            reveal_strlit("rt_region_alloc_set");
            assert(symbol_position("rt_region_alloc_set"@) == 130);
            assert(!"rt_region_alloc_set"@.contains('\0'));
        },
        RtFn::RegionAllocList => {
            reveal_strlit("rt_region_alloc_list");
            assert(symbol_position("rt_region_alloc_list"@) == 131);
            assert(!"rt_region_alloc_list"@.contains('\0'));
        },
        RtFn::RegionAllocCons => {
            reveal_strlit("rt_region_alloc_cons");
            assert(symbol_position("rt_region_alloc_cons"@) == 132);
            assert(!"rt_region_alloc_cons"@.contains('\0'));
        },
        RtFn::ValueTag => {
            reveal_strlit("rt_value_tag");
            assert(symbol_position("rt_value_tag"@) == 133);
            assert(!"rt_value_tag"@.contains('\0'));
        },
        RtFn::UnboxLong => {
            reveal_strlit("rt_unbox_long");
            assert(symbol_position("rt_unbox_long"@) == 134);
            assert(!"rt_unbox_long"@.contains('\0'));
        },
        RtFn::UnboxDouble => {
            reveal_strlit("rt_unbox_double");
            assert(symbol_position("rt_unbox_double"@) == 135);
            assert(!"rt_unbox_double"@.contains('\0'));
        },
        RtFn::BoxBool => {
            reveal_strlit("rt_box_bool");
            assert(symbol_position("rt_box_bool"@) == 136);
            assert(!"rt_box_bool"@.contains('\0'));
        },
        RtFn::Deopt => {
            reveal_strlit("rt_deopt");
            assert(symbol_position("rt_deopt"@) == 137);
            assert(!"rt_deopt"@.contains('\0'));
        },
        RtFn::KwIcFill => {
            reveal_strlit("rt_kw_ic_fill");
            assert(symbol_position("rt_kw_ic_fill"@) == 138);
            assert(!"rt_kw_ic_fill"@.contains('\0'));
        },
        RtFn::CallIc => {
            reveal_strlit("rt_call_ic");
            assert(symbol_position("rt_call_ic"@) == 139);
            assert(!"rt_call_ic"@.contains('\0'));
        },
        RtFn::OverflowError => {
            reveal_strlit("rt_overflow_error");
            assert(symbol_position("rt_overflow_error"@) == 140);
            assert(!"rt_overflow_error"@.contains('\0'));
        },
    }
}

/// Every bridge function is declared, and none twice.
pub proof fn declared_exactly_once(f: RtFn, i: int)
    ensures
        0 <= rt_index(f) < rt_order().len(),
        rt_order()[rt_index(f)] == f,
        0 <= i < rt_order().len() && rt_order()[i] == f ==> i == rt_index(f),
{
    assert(rt_order().len() == 141);
    assert(rt_order()[rt_index(f)] == f);
    assert(0 <= i < rt_order().len() ==> rt_index(rt_order()[i]) == i);
}

impl RtFn {
    /// The symbol that the function is linked by.
    pub fn symbol(self) -> (r: &'static str)
        ensures
            r@ == rt_symbol(self),
    {
        match self {
            RtFn::Safepoint => "rt_safepoint",
            RtFn::ConstNil => "rt_const_nil",
            RtFn::ConstTrue => "rt_const_true",
            RtFn::ConstFalse => "rt_const_false",
            RtFn::ConstLong => "rt_const_long",
            RtFn::ConstDouble => "rt_const_double",
            RtFn::ConstChar => "rt_const_char",
            RtFn::ConstString => "rt_const_string",
            RtFn::ConstKeyword => "rt_const_keyword",
            RtFn::ConstSymbol => "rt_const_symbol",
            RtFn::Truthiness => "rt_truthiness",
            RtFn::Add => "rt_add",
            RtFn::Sub => "rt_sub",
            RtFn::Mul => "rt_mul",
            RtFn::Div => "rt_div",
            RtFn::Rem => "rt_rem",
            RtFn::Eq => "rt_eq",
            RtFn::Lt => "rt_lt",
            RtFn::Gt => "rt_gt",
            RtFn::Lte => "rt_lte",
            RtFn::Gte => "rt_gte",
            RtFn::AllocVector => "rt_alloc_vector",
            RtFn::AllocMap => "rt_alloc_map",
            RtFn::AllocSet => "rt_alloc_set",
            RtFn::AllocList => "rt_alloc_list",
            RtFn::AllocCons => "rt_alloc_cons",
            RtFn::Get => "rt_get",
            RtFn::Count => "rt_count",
            RtFn::CountFilter => "rt_count_filter",
            RtFn::IntoFilter => "rt_into_filter",
            RtFn::IntoMapcat => "rt_into_mapcat",
            RtFn::IntoMap => "rt_into_map",
            RtFn::First => "rt_first",
            RtFn::Rest => "rt_rest",
            RtFn::Assoc => "rt_assoc",
            RtFn::Conj => "rt_conj",
            RtFn::Call => "rt_call",
            RtFn::Deref => "rt_deref",
            RtFn::Println => "rt_println",
            RtFn::Pr => "rt_pr",
            RtFn::IsNil => "rt_is_nil",
            RtFn::IsVector => "rt_is_vector",
            RtFn::IsMap => "rt_is_map",
            RtFn::IsSeq => "rt_is_seq",
            RtFn::Identical => "rt_identical",
            RtFn::Str => "rt_str",
            RtFn::LoadGlobal => "rt_load_global",
            RtFn::LoadGlobalVersionedIc => "rt_load_global_versioned_ic",
            RtFn::DefVar => "rt_def_var",
            RtFn::MakeFn => "rt_make_fn",
            RtFn::MakeFnVariadic => "rt_make_fn_variadic",
            RtFn::MakeFnMulti => "rt_make_fn_multi",
            RtFn::Throw => "rt_throw",
            RtFn::Try => "rt_try",
            RtFn::Dissoc => "rt_dissoc",
            RtFn::Disj => "rt_disj",
            RtFn::Nth => "rt_nth",
            RtFn::Contains => "rt_contains",
            RtFn::ToSeq => "rt_seq",
            RtFn::LazySeq => "rt_lazy_seq",
            RtFn::Transient => "rt_transient",
            RtFn::AssocBang => "rt_assoc_bang",
            RtFn::ConjBang => "rt_conj_bang",
            RtFn::PersistentBang => "rt_persistent_bang",
            RtFn::AtomReset => "rt_atom_reset",
            RtFn::AtomSwap => "rt_atom_swap",
            RtFn::Apply => "rt_apply",
            RtFn::SetBang => "rt_set_bang",
            RtFn::WithBindings => "rt_with_bindings",
            RtFn::LoadVar => "rt_load_var",
            RtFn::Reduce2 => "rt_reduce2",
            RtFn::Reduce3 => "rt_reduce3",
            RtFn::MapSeq => "rt_map",
            RtFn::Filter => "rt_filter",
            RtFn::Mapv => "rt_mapv",
            RtFn::Filterv => "rt_filterv",
            RtFn::SomePred => "rt_some",
            RtFn::Every => "rt_every",
            RtFn::Into => "rt_into",
            RtFn::Into3 => "rt_into3",
            RtFn::GroupBy => "rt_group_by",
            RtFn::Partition2 => "rt_partition2",
            RtFn::Partition3 => "rt_partition3",
            RtFn::Partition4 => "rt_partition4",
            RtFn::Frequencies => "rt_frequencies",
            RtFn::Keep => "rt_keep",
            RtFn::Remove => "rt_remove",
            RtFn::MapIndexed => "rt_map_indexed",
            RtFn::Zipmap => "rt_zipmap",
            RtFn::Juxt => "rt_juxt",
            RtFn::Comp => "rt_comp",
            RtFn::Partial => "rt_partial",
            RtFn::Complement => "rt_complement",
            RtFn::Concat => "rt_concat",
            RtFn::Range1 => "rt_range1",
            RtFn::Range2 => "rt_range2",
            RtFn::Range3 => "rt_range3",
            RtFn::Take => "rt_take",
            RtFn::Drop => "rt_drop",
            RtFn::Reverse => "rt_reverse",
            RtFn::Sort => "rt_sort",
            RtFn::SortBy => "rt_sort_by",
            RtFn::Keys => "rt_keys",
            RtFn::Vals => "rt_vals",
            RtFn::Merge => "rt_merge",
            RtFn::Update => "rt_update",
            RtFn::GetIn => "rt_get_in",
            RtFn::AssocIn => "rt_assoc_in",
            RtFn::IsNumber => "rt_is_number",
            RtFn::IsString => "rt_is_string",
            RtFn::IsKeyword => "rt_is_keyword",
            RtFn::IsSymbol => "rt_is_symbol",
            RtFn::IsBool => "rt_is_bool",
            RtFn::IsInt => "rt_is_int",
            RtFn::Prn => "rt_prn",
            RtFn::Print => "rt_print",
            RtFn::Atom => "rt_atom",
            RtFn::StrN => "rt_str_n",
            RtFn::PrintlnN => "rt_println_n",
            RtFn::WithOutStr => "rt_with_out_str",
            RtFn::Peek => "rt_peek",
            RtFn::Pop => "rt_pop",
            RtFn::Vec => "rt_vec",
            RtFn::Mapcat => "rt_mapcat",
            RtFn::IsEmpty => "rt_is_empty",
            RtFn::Repeatedly => "rt_repeatedly",
            RtFn::RegionStart => "rt_region_start",
            RtFn::RegionEnd => "rt_region_end",
            RtFn::RegionAllocVector => "rt_region_alloc_vector",
            RtFn::RegionAllocMap => "rt_region_alloc_map",
            RtFn::RegionAllocSet => "rt_region_alloc_set",
            RtFn::RegionAllocList => "rt_region_alloc_list",
            RtFn::RegionAllocCons => "rt_region_alloc_cons",
            RtFn::ValueTag => "rt_value_tag",
            RtFn::UnboxLong => "rt_unbox_long",
            RtFn::UnboxDouble => "rt_unbox_double",
            RtFn::BoxBool => "rt_box_bool",
            RtFn::Deopt => "rt_deopt",
            RtFn::KwIcFill => "rt_kw_ic_fill",
            RtFn::CallIc => "rt_call_ic",
            RtFn::OverflowError => "rt_overflow_error",
        }
    }

    /// The machine types of the parameters.
    pub fn params(self) -> (r: Vec<ClifTy>)
        ensures
            r@ == rt_params(self),
    {
        match self {
            RtFn::Safepoint | RtFn::ConstNil | RtFn::ConstTrue | RtFn::ConstFalse | RtFn::RegionStart | RtFn::Deopt | RtFn::OverflowError => Vec::new(),
            RtFn::ConstLong => vec![ClifTy::I64],
            RtFn::ConstDouble => vec![ClifTy::F64],
            RtFn::ConstChar => vec![ClifTy::I32],
            RtFn::ConstString | RtFn::ConstKeyword | RtFn::ConstSymbol | RtFn::AllocVector | RtFn::AllocMap | RtFn::AllocSet | RtFn::AllocList | RtFn::Juxt | RtFn::Comp | RtFn::Partial | RtFn::Concat | RtFn::Merge | RtFn::StrN | RtFn::PrintlnN => vec![ClifTy::Ptr, ClifTy::I64],
            RtFn::Truthiness | RtFn::Count | RtFn::First | RtFn::Rest | RtFn::Deref | RtFn::Println | RtFn::Pr | RtFn::IsNil | RtFn::IsVector | RtFn::IsMap | RtFn::IsSeq | RtFn::Str | RtFn::Throw | RtFn::ToSeq | RtFn::LazySeq | RtFn::Transient | RtFn::PersistentBang | RtFn::Frequencies | RtFn::Complement | RtFn::Range1 | RtFn::Reverse | RtFn::Sort | RtFn::Keys | RtFn::Vals | RtFn::IsNumber | RtFn::IsString | RtFn::IsKeyword | RtFn::IsSymbol | RtFn::IsBool | RtFn::IsInt | RtFn::Prn | RtFn::Print | RtFn::Atom | RtFn::WithOutStr | RtFn::Peek | RtFn::Pop | RtFn::Vec | RtFn::IsEmpty | RtFn::RegionEnd | RtFn::ValueTag | RtFn::UnboxLong | RtFn::UnboxDouble => vec![ClifTy::Ptr],
            RtFn::IntoFilter | RtFn::IntoMapcat | RtFn::IntoMap | RtFn::Assoc | RtFn::Try | RtFn::AssocBang | RtFn::Reduce3 | RtFn::Into3 | RtFn::Partition3 | RtFn::Range3 | RtFn::Update | RtFn::AssocIn | RtFn::RegionAllocCons => vec![ClifTy::Ptr, ClifTy::Ptr, ClifTy::Ptr],
            RtFn::Call | RtFn::RegionAllocVector | RtFn::RegionAllocMap | RtFn::RegionAllocSet | RtFn::RegionAllocList => vec![ClifTy::Ptr, ClifTy::Ptr, ClifTy::I64],
            RtFn::LoadGlobal | RtFn::LoadVar => vec![ClifTy::Ptr, ClifTy::I64, ClifTy::Ptr, ClifTy::I64],
            RtFn::LoadGlobalVersionedIc | RtFn::DefVar => vec![ClifTy::Ptr, ClifTy::I64, ClifTy::Ptr, ClifTy::I64, ClifTy::Ptr],
            RtFn::MakeFn | RtFn::MakeFnVariadic => vec![ClifTy::Ptr, ClifTy::I64, ClifTy::Ptr, ClifTy::I64, ClifTy::Ptr, ClifTy::I64],
            RtFn::MakeFnMulti => vec![ClifTy::Ptr, ClifTy::I64, ClifTy::Ptr, ClifTy::Ptr, ClifTy::Ptr, ClifTy::I64, ClifTy::Ptr, ClifTy::I64],
            RtFn::AtomSwap => vec![ClifTy::Ptr, ClifTy::Ptr, ClifTy::Ptr, ClifTy::I64],
            RtFn::WithBindings | RtFn::KwIcFill => vec![ClifTy::Ptr, ClifTy::I64, ClifTy::Ptr],
            RtFn::Partition4 => vec![ClifTy::Ptr, ClifTy::Ptr, ClifTy::Ptr, ClifTy::Ptr],
            RtFn::BoxBool => vec![ClifTy::I8],
            RtFn::CallIc => vec![ClifTy::Ptr, ClifTy::Ptr, ClifTy::I64, ClifTy::Ptr],
            _ => vec![ClifTy::Ptr, ClifTy::Ptr],
        }
    }

    /// The machine type of the result, if there is one.
    pub fn result(self) -> (r: Option<ClifTy>)
        ensures
            r == rt_result(self),
    {
        match self {
            RtFn::Safepoint => None,
            RtFn::Truthiness => Some(ClifTy::I8),
            RtFn::ValueTag | RtFn::UnboxLong => Some(ClifTy::I64),
            RtFn::UnboxDouble => Some(ClifTy::F64),
            _ => Some(ClifTy::Ptr),
        }
    }

    /// The position in the declaration order.
    pub fn index(self) -> (r: usize)
        ensures
            r == rt_index(self),
    {
        match self {
            RtFn::Safepoint => 0,
            RtFn::ConstNil => 1,
            RtFn::ConstTrue => 2,
            RtFn::ConstFalse => 3,
            RtFn::ConstLong => 4,
            RtFn::ConstDouble => 5,
            RtFn::ConstChar => 6,
            RtFn::ConstString => 7,
            RtFn::ConstKeyword => 8,
            RtFn::ConstSymbol => 9,
            RtFn::Truthiness => 10,
            RtFn::Add => 11,
            RtFn::Sub => 12,
            RtFn::Mul => 13,
            RtFn::Div => 14,
            RtFn::Rem => 15,
            RtFn::Eq => 16,
            RtFn::Lt => 17,
            RtFn::Gt => 18,
            RtFn::Lte => 19,
            RtFn::Gte => 20,
            RtFn::AllocVector => 21,
            RtFn::AllocMap => 22,
            RtFn::AllocSet => 23,
            RtFn::AllocList => 24,
            RtFn::AllocCons => 25,
            RtFn::Get => 26,
            RtFn::Count => 27,
            RtFn::CountFilter => 28,
            RtFn::IntoFilter => 29,
            RtFn::IntoMapcat => 30,
            RtFn::IntoMap => 31,
            RtFn::First => 32,
            RtFn::Rest => 33,
            RtFn::Assoc => 34,
            RtFn::Conj => 35,
            RtFn::Call => 36,
            RtFn::Deref => 37,
            RtFn::Println => 38,
            RtFn::Pr => 39,
            RtFn::IsNil => 40,
            RtFn::IsVector => 41,
            RtFn::IsMap => 42,
            RtFn::IsSeq => 43,
            RtFn::Identical => 44,
            RtFn::Str => 45,
            RtFn::LoadGlobal => 46,
            RtFn::LoadGlobalVersionedIc => 47,
            RtFn::DefVar => 48,
            RtFn::MakeFn => 49,
            RtFn::MakeFnVariadic => 50,
            RtFn::MakeFnMulti => 51,
            RtFn::Throw => 52,
            RtFn::Try => 53,
            RtFn::Dissoc => 54,
            RtFn::Disj => 55,
            RtFn::Nth => 56,
            RtFn::Contains => 57,
            RtFn::ToSeq => 58,
            RtFn::LazySeq => 59,
            RtFn::Transient => 60,
            RtFn::AssocBang => 61,
            RtFn::ConjBang => 62,
            RtFn::PersistentBang => 63,
            RtFn::AtomReset => 64,
            RtFn::AtomSwap => 65,
            RtFn::Apply => 66,
            RtFn::SetBang => 67,
            RtFn::WithBindings => 68,
            RtFn::LoadVar => 69,
            RtFn::Reduce2 => 70,
            RtFn::Reduce3 => 71,
            RtFn::MapSeq => 72,
            RtFn::Filter => 73,
            RtFn::Mapv => 74,
            RtFn::Filterv => 75,
            RtFn::SomePred => 76,
            RtFn::Every => 77,
            RtFn::Into => 78,
            RtFn::Into3 => 79,
            RtFn::GroupBy => 80,
            RtFn::Partition2 => 81,
            RtFn::Partition3 => 82,
            RtFn::Partition4 => 83,
            RtFn::Frequencies => 84,
            RtFn::Keep => 85,
            RtFn::Remove => 86,
            RtFn::MapIndexed => 87,
            RtFn::Zipmap => 88,
            RtFn::Juxt => 89,
            RtFn::Comp => 90,
            RtFn::Partial => 91,
            RtFn::Complement => 92,
            RtFn::Concat => 93,
            RtFn::Range1 => 94,
            RtFn::Range2 => 95,
            RtFn::Range3 => 96,
            RtFn::Take => 97,
            RtFn::Drop => 98,
            RtFn::Reverse => 99,
            RtFn::Sort => 100,
            RtFn::SortBy => 101,
            RtFn::Keys => 102,
            RtFn::Vals => 103,
            RtFn::Merge => 104,
            RtFn::Update => 105,
            RtFn::GetIn => 106,
            RtFn::AssocIn => 107,
            RtFn::IsNumber => 108,
            RtFn::IsString => 109,
            RtFn::IsKeyword => 110,
            RtFn::IsSymbol => 111,
            RtFn::IsBool => 112,
            RtFn::IsInt => 113,
            RtFn::Prn => 114,
            RtFn::Print => 115,
            RtFn::Atom => 116,
            RtFn::StrN => 117,
            RtFn::PrintlnN => 118,
            RtFn::WithOutStr => 119,
            RtFn::Peek => 120,
            RtFn::Pop => 121,
            RtFn::Vec => 122,
            RtFn::Mapcat => 123,
            RtFn::IsEmpty => 124,
            RtFn::Repeatedly => 125,
            RtFn::RegionStart => 126,
            RtFn::RegionEnd => 127,
            RtFn::RegionAllocVector => 128,
            RtFn::RegionAllocMap => 129,
            RtFn::RegionAllocSet => 130,
            RtFn::RegionAllocList => 131,
            RtFn::RegionAllocCons => 132,
            RtFn::ValueTag => 133,
            RtFn::UnboxLong => 134,
            RtFn::UnboxDouble => 135,
            RtFn::BoxBool => 136,
            RtFn::Deopt => 137,
            RtFn::KwIcFill => 138,
            RtFn::CallIc => 139,
            RtFn::OverflowError => 140,
        }
    }

    /// All bridge functions, in declaration order.
    pub fn all() -> (r: Vec<RtFn>)
        ensures
            r@ == rt_order(),
    {
        vec![
            RtFn::Safepoint,
            RtFn::ConstNil,
            RtFn::ConstTrue,
            RtFn::ConstFalse,
            RtFn::ConstLong,
            RtFn::ConstDouble,
            RtFn::ConstChar,
            RtFn::ConstString,
            RtFn::ConstKeyword,
            RtFn::ConstSymbol,
            RtFn::Truthiness,
            RtFn::Add,
            RtFn::Sub,
            RtFn::Mul,
            RtFn::Div,
            RtFn::Rem,
            RtFn::Eq,
            RtFn::Lt,
            RtFn::Gt,
            RtFn::Lte,
            RtFn::Gte,
            RtFn::AllocVector,
            RtFn::AllocMap,
            RtFn::AllocSet,
            RtFn::AllocList,
            RtFn::AllocCons,
            RtFn::Get,
            RtFn::Count,
            RtFn::CountFilter,
            RtFn::IntoFilter,
            RtFn::IntoMapcat,
            RtFn::IntoMap,
            RtFn::First,
            RtFn::Rest,
            RtFn::Assoc,
            RtFn::Conj,
            RtFn::Call,
            RtFn::Deref,
            RtFn::Println,
            RtFn::Pr,
            RtFn::IsNil,
            RtFn::IsVector,
            RtFn::IsMap,
            RtFn::IsSeq,
            RtFn::Identical,
            RtFn::Str,
            RtFn::LoadGlobal,
            RtFn::LoadGlobalVersionedIc,
            RtFn::DefVar,
            RtFn::MakeFn,
            RtFn::MakeFnVariadic,
            RtFn::MakeFnMulti,
            RtFn::Throw,
            RtFn::Try,
            RtFn::Dissoc,
            RtFn::Disj,
            RtFn::Nth,
            RtFn::Contains,
            RtFn::ToSeq,
            RtFn::LazySeq,
            RtFn::Transient,
            RtFn::AssocBang,
            RtFn::ConjBang,
            RtFn::PersistentBang,
            RtFn::AtomReset,
            RtFn::AtomSwap,
            RtFn::Apply,
            RtFn::SetBang,
            RtFn::WithBindings,
            RtFn::LoadVar,
            RtFn::Reduce2,
            RtFn::Reduce3,
            RtFn::MapSeq,
            RtFn::Filter,
            RtFn::Mapv,
            RtFn::Filterv,
            RtFn::SomePred,
            RtFn::Every,
            RtFn::Into,
            RtFn::Into3,
            RtFn::GroupBy,
            RtFn::Partition2,
            RtFn::Partition3,
            RtFn::Partition4,
            RtFn::Frequencies,
            RtFn::Keep,
            RtFn::Remove,
            RtFn::MapIndexed,
            RtFn::Zipmap,
            RtFn::Juxt,
            RtFn::Comp,
            RtFn::Partial,
            RtFn::Complement,
            RtFn::Concat,
            RtFn::Range1,
            RtFn::Range2,
            RtFn::Range3,
            RtFn::Take,
            RtFn::Drop,
            RtFn::Reverse,
            RtFn::Sort,
            RtFn::SortBy,
            RtFn::Keys,
            RtFn::Vals,
            RtFn::Merge,
            RtFn::Update,
            RtFn::GetIn,
            RtFn::AssocIn,
            RtFn::IsNumber,
            RtFn::IsString,
            RtFn::IsKeyword,
            RtFn::IsSymbol,
            RtFn::IsBool,
            RtFn::IsInt,
            RtFn::Prn,
            RtFn::Print,
            RtFn::Atom,
            RtFn::StrN,
            RtFn::PrintlnN,
            RtFn::WithOutStr,
            RtFn::Peek,
            RtFn::Pop,
            RtFn::Vec,
            RtFn::Mapcat,
            RtFn::IsEmpty,
            RtFn::Repeatedly,
            RtFn::RegionStart,
            RtFn::RegionEnd,
            RtFn::RegionAllocVector,
            RtFn::RegionAllocMap,
            RtFn::RegionAllocSet,
            RtFn::RegionAllocList,
            RtFn::RegionAllocCons,
            RtFn::ValueTag,
            RtFn::UnboxLong,
            RtFn::UnboxDouble,
            RtFn::BoxBool,
            RtFn::Deopt,
            RtFn::KwIcFill,
            RtFn::CallIc,
            RtFn::OverflowError,
        ]
    }
}

} // verus!
