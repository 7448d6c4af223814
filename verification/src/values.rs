use vstd::prelude::*;
use crate::bytes::{bytes_dup, bytes_eq};

verus! {

/// Everything that can go wrong while running a program.
///
/// `VariableNotDefined` carries the identifier. `MathError` and
/// `InvalidType` carry the symbol of the offending operator (one of
/// `+ - * / %`) or, for a call, the callee's identifier. `EmptyProgram`
/// is the well-defined answer to a source text with no statements, whose
/// "last statement's value" does not exist.
#[derive(Debug, Clone, PartialEq)]
pub enum QueryError {
    LexingError,
    ParsingError,
    VariableNotDefined(Vec<u8>),
    MathError(Vec<u8>),
    InvalidType(Vec<u8>),
    EmptyProgram,
}

/// The mathematical form of `QueryError`.
pub ghost enum ErrorModel {
    Lexing,
    Parsing,
    VariableNotDefined(Seq<u8>),
    Math(Seq<u8>),
    InvalidType(Seq<u8>),
    EmptyProgram,
}

pub open spec fn error_view(e: QueryError) -> ErrorModel {
    match e {
        QueryError::LexingError => ErrorModel::Lexing,
        QueryError::ParsingError => ErrorModel::Parsing,
        QueryError::VariableNotDefined(n) => ErrorModel::VariableNotDefined(n@),
        QueryError::MathError(m) => ErrorModel::Math(m@),
        QueryError::InvalidType(m) => ErrorModel::InvalidType(m@),
        QueryError::EmptyProgram => ErrorModel::EmptyProgram,
    }
}

impl View for QueryError {
    type V = ErrorModel;

    open spec fn view(&self) -> ErrorModel {
        error_view(*self)
    }
}

/// A handle for a native (host-provided) function. Scripts can only reach
/// one through an environment binding; `Print` is the built-in diagnostic
/// sink.
#[derive(Debug, Clone, Copy, PartialEq, Eq, Structural)]
pub enum NativeFn {
    Print,
}

/// A runtime value. `Number` holds the bit pattern of an IEEE-754 double
/// (see `crate::numbers`); `Nothing` is the unit value that a native call
/// returns.
#[derive(Debug)]
pub enum DataType {
    Nothing,
    Number(u64),
    String(Vec<u8>),
    List(Vec<DataType>),
    Function(NativeFn),
}

/// The mathematical form of a runtime value.
pub ghost enum ValueModel {
    Nothing,
    Number(u64),
    String(Seq<u8>),
    List(Seq<ValueModel>),
    Function(NativeFn),
}

pub open spec fn value_view(v: DataType) -> ValueModel
    decreases v,
{
    match v {
        DataType::Nothing => ValueModel::Nothing,
        DataType::Number(b) => ValueModel::Number(b),
        DataType::String(s) => ValueModel::String(s@),
        DataType::List(vs) => ValueModel::List(values_view(vs@)),
        DataType::Function(f) => ValueModel::Function(f),
    }
}

pub open spec fn values_view(vs: Seq<DataType>) -> Seq<ValueModel>
    decreases vs,
{
    if vs.len() == 0 {
        Seq::empty()
    } else {
        values_view(vs.drop_last()).push(value_view(vs.last()))
    }
}

impl View for DataType {
    type V = ValueModel;

    open spec fn view(&self) -> ValueModel {
        value_view(*self)
    }
}

/// `values_view` maps the sequence element by element.
pub proof fn lemma_values_view(vs: Seq<DataType>)
    ensures
        values_view(vs).len() == vs.len(),
        forall|i: int| 0 <= i < vs.len() ==> values_view(vs)[i] == value_view(vs[i]),
    decreases vs,
{
    if vs.len() > 0 {
        lemma_values_view(vs.drop_last());
    }
}

pub open spec fn result_view(r: Result<DataType, QueryError>) -> Result<ValueModel, ErrorModel> {
    match r {
        Ok(v) => Ok(value_view(v)),
        Err(e) => Err(error_view(e)),
    }
}

/// The emitted lines of the diagnostic sink, as byte sequences.
pub open spec fn lines_view(o: Seq<Vec<u8>>) -> Seq<Seq<u8>> {
    o.map_values(|l: Vec<u8>| l@)
}

/// A structural size for runtime values, used as a termination measure.
pub open spec fn value_size(v: DataType) -> nat
    decreases v,
{
    match v {
        DataType::List(vs) => 1 + values_size(vs@),
        _ => 1,
    }
}

pub open spec fn values_size(vs: Seq<DataType>) -> nat
    decreases vs,
{
    if vs.len() == 0 {
        0
    } else {
        values_size(vs.drop_last()) + value_size(vs.last())
    }
}

/// Every element of a sequence is at most the sequence's total size.
pub proof fn lemma_values_size_index(vs: Seq<DataType>, i: int)
    requires
        0 <= i < vs.len(),
    ensures
        value_size(vs[i]) <= values_size(vs),
    decreases vs,
{
    if i == vs.len() - 1 {
        assert(vs.last() == vs[i]);
    } else {
        lemma_values_size_index(vs.drop_last(), i);
        assert(vs.drop_last()[i] == vs[i]);
    }
}

impl DataType {
    /// A structurally equal copy (values have copy semantics on
    /// assignment and read).
    pub fn duplicate(&self) -> (r: DataType)
        ensures
            value_view(r) == value_view(*self),
        decreases value_size(*self),
    {
        match self {
            DataType::Nothing => DataType::Nothing,
            DataType::Number(b) => DataType::Number(*b),
            DataType::String(s) => DataType::String(bytes_dup(s)),
            DataType::Function(f) => DataType::Function(*f),
            DataType::List(vs) => {
                let mut l: Vec<DataType> = Vec::new();
                let mut i: usize = 0;
                while i < vs.len()
                    invariant
                        i <= vs.len(),
                        l@.len() == i,
                        forall|k: int| 0 <= k < i ==> value_view(l@[k]) == value_view(vs@[k]),
                        value_size(*self) == 1 + values_size(vs@),
                    decreases vs.len() - i,
                {
                    proof {
                        lemma_values_size_index(vs@, i as int);
                    }
                    let c = vs[i].duplicate();
                    l.push(c);
                    i += 1;
                }
                proof {
                    lemma_values_view(l@);
                    lemma_values_view(vs@);
                    assert(values_view(l@) =~= values_view(vs@));
                }
                DataType::List(l)
            },
        }
    }
}

/// The variable environment of one evaluation: identifier to value.
/// A later binding of the same identifier shadows an earlier one, so a
/// plain push is an overwrite; its view is the resulting finite map.
pub struct Env {
    pub entries: Vec<(Vec<u8>, DataType)>,
}

pub open spec fn env_map(es: Seq<(Vec<u8>, DataType)>) -> Map<Seq<u8>, ValueModel>
    decreases es,
{
    if es.len() == 0 {
        Map::empty()
    } else {
        env_map(es.drop_last()).insert(es.last().0@, value_view(es.last().1))
    }
}

impl View for Env {
    type V = Map<Seq<u8>, ValueModel>;

    open spec fn view(&self) -> Map<Seq<u8>, ValueModel> {
        env_map(self.entries@)
    }
}

impl Env {
    /// The empty environment.
    pub fn new() -> (e: Env)
        ensures
            e@ == Map::<Seq<u8>, ValueModel>::empty(),
    {
        Env { entries: Vec::new() }
    }

    /// Binds `key` to `val`, creating or overwriting the binding.
    pub fn insert(&mut self, key: Vec<u8>, val: DataType)
        ensures
            final(self)@ == old(self)@.insert(key@, value_view(val)),
    {
        let ghost before = self.entries@;
        self.entries.push((key, val));
        proof {
            assert(self.entries@.drop_last() =~= before);
        }
    }

    /// Looks `key` up and returns a copy of the bound value.
    pub fn get(&self, key: &Vec<u8>) -> (r: Option<DataType>)
        ensures
            match r {
                Some(v) => self@.contains_key(key@) && value_view(v) == self@[key@],
                Option::<DataType>::None => !self@.contains_key(key@),
            },
    {
        let ghost full = self.entries@;
        let mut j: usize = self.entries.len();
        proof {
            assert(full.take(self.entries@.len() as int) =~= full);
        }
        while j > 0
            invariant
                j <= self.entries@.len(),
                full == self.entries@,
                env_map(full).contains_key(key@) == env_map(full.take(j as int)).contains_key(
                    key@,
                ),
                env_map(full).contains_key(key@) ==> env_map(full)[key@] == env_map(
                    full.take(j as int),
                )[key@],
            decreases j,
        {
            let entry_key = &self.entries[j - 1].0;
            proof {
                assert(full.take(j as int).drop_last() =~= full.take(j as int - 1));
                assert(full.take(j as int).last() == full[j as int - 1]);
            }
            if bytes_eq(entry_key, key) {
                let v = self.entries[j - 1].1.duplicate();
                return Some(v);
            }
            j -= 1;
        }
        proof {
            assert(full.take(0) =~= Seq::<(Vec<u8>, DataType)>::empty());
        }
        None
    }
}

/// The identifier of the built-in diagnostic sink.
pub open spec fn print_name() -> Seq<u8> {
    seq![112u8, 114u8, 105u8, 110u8, 116u8]  // "print"
}

/// Seeds an environment with the native-function table: the one
/// guaranteed entry binds `print` to the diagnostic sink.
pub fn fill_env(env: &mut Env)
    ensures
        final(env)@ == old(env)@.insert(print_name(), ValueModel::Function(NativeFn::Print)),
{
    let mut key: Vec<u8> = Vec::new();
    key.push(112);  // p
    key.push(114);  // r
    key.push(105);  // i
    key.push(110);  // n
    key.push(116);  // t
    proof {
        assert(key@ =~= print_name());
    }
    env.insert(key, DataType::Function(NativeFn::Print));
}

} // verus!
