//! Contracts as the analysis reads them: expressions, definitions, and the
//! native functions that an expression can call.

use vstd::prelude::*;

use crate::contracts::{LoadStop, StopV};
use crate::effects::Functions;
use crate::ordered::{Data, OrderedMap};
use crate::types::{ClarityName, NameV, PrincipalData, QualifiedContractIdentifier};

verus! {

/// A Clarity value, as far as effects depend on it.
#[derive(Debug, Clone, PartialEq, Eq)]
pub enum Value {
    Principal(PrincipalData),
    /// A contract that is passed where a trait is expected.
    CallableContract(QualifiedContractIdentifier),
    /// A value that names no principal.
    Other,
}

/// A Clarity expression.
#[derive(Debug, PartialEq, Eq)]
pub enum SymbolicExpression {
    AtomValue(Value),
    LiteralValue(Value),
    Atom(ClarityName),
    List(Vec<SymbolicExpression>),
    Field,
    TraitReference,
}

/// The name that an expression consists of.
pub open spec fn atom_in(e: SymbolicExpression) -> Option<NameV> {
    match e {
        SymbolicExpression::Atom(name) => Some(name@),
        _ => None,
    }
}

/// The expressions of a list.
pub open spec fn list_in(e: SymbolicExpression) -> Option<Seq<SymbolicExpression>> {
    match e {
        SymbolicExpression::List(list) => Some(list@),
        _ => None,
    }
}

impl SymbolicExpression {
    /// The name that the expression consists of, if it is one.
    pub fn match_atom(&self) -> (r: Option<&ClarityName>)
        ensures
            match r {
                Some(name) => atom_in(*self) == Some(name@),
                None => atom_in(*self) is None,
            },
    {
        match self {
            SymbolicExpression::Atom(name) => Some(name),
            _ => None,
        }
    }

    /// The expressions of the list that the expression is, if it is one.
    pub fn match_list(&self) -> (r: Option<&[SymbolicExpression]>)
        ensures
            match r {
                Some(list) => list_in(*self) == Some(list@),
                None => list_in(*self) is None,
            },
    {
        match self {
            SymbolicExpression::List(list) => Some(list.as_slice()),
            _ => None,
        }
    }
}

/// A definition at the top level of a contract.
#[derive(Debug, PartialEq, Eq)]
pub enum DefineFunctionsParsed {
    Constant { name: ClarityName, value: SymbolicExpression },
    PrivateFunction { signature: Vec<SymbolicExpression>, body: SymbolicExpression },
    ReadOnlyFunction { signature: Vec<SymbolicExpression>, body: SymbolicExpression },
    PublicFunction { signature: Vec<SymbolicExpression>, body: SymbolicExpression },
    NonFungibleToken { name: ClarityName },
    BoundedFungibleToken { name: ClarityName, max_supply: SymbolicExpression },
    UnboundedFungibleToken { name: ClarityName },
    DataMap { name: ClarityName },
    PersistedVariable { name: ClarityName, initial: SymbolicExpression },
    Trait,
    UseTrait,
    ImplTrait,
}

/// One expression at the top level of a contract.
#[derive(Debug, PartialEq, Eq)]
pub enum TopLevel {
    Definition(DefineFunctionsParsed),
    /// An expression that is evaluated when the contract is deployed.
    Expression(SymbolicExpression),
    /// A definition that is not well formed, and why.
    Invalid(String),
}

/// The version of the language that a contract is written in.
#[derive(Debug, Clone, Copy, PartialEq, Eq, Structural)]
pub enum ClarityVersion {
    Clarity1,
    Clarity2,
    Clarity3,
    Clarity4,
}

/// The native functions that have effects or bind names.
#[derive(Debug, Clone, Copy, PartialEq, Eq, Structural)]
pub enum NativeFunctions {
    FetchVar,
    SetVar,
    FetchEntry,
    SetEntry,
    InsertEntry,
    DeleteEntry,
    GetBlockInfo,
    GetStacksBlockInfo,
    GetBurnBlockInfo,
    GetTenureInfo,
    GetStxBalance,
    StxGetAccount,
    StxTransfer,
    StxTransferMemo,
    StxBurn,
    GetTokenBalance,
    GetTokenSupply,
    TransferToken,
    MintToken,
    BurnToken,
    GetAssetOwner,
    TransferAsset,
    MintAsset,
    BurnAsset,
    ContractCall,
    Let,
    /// Any other native function.
    Other,
}

impl View for NativeFunctions {
    type V = NativeFunctions;

    open spec fn view(&self) -> NativeFunctions {
        *self
    }
}

impl Data for NativeFunctions {
    fn duplicate(&self) -> (r: Self) {
        *self
    }

    fn same(&self, other: &Self) -> (b: bool) {
        *self == *other
    }
}

/// The native functions of a version of the language, by name.
pub type NativeTable = OrderedMap<ClarityName, NativeFunctions>;

/// A contract under analysis.
#[derive(Debug)]
pub struct ContractAnalysis {
    pub contract_identifier: QualifiedContractIdentifier,
    pub clarity_version: ClarityVersion,
    /// The native functions of that version.
    pub natives: NativeTable,
    pub expressions: Vec<TopLevel>,
    /// What the analysis found: the effects of each function.
    pub function_effects: Functions,
}

/// Why an analysis failed.
#[derive(Debug, Clone, PartialEq, Eq)]
pub enum StaticCheckError {
    /// The signature of a function does not begin with its name.
    DefineFunctionBadSignature,
    /// A definition is not well formed.
    InvalidDefinition(String),
    /// Following the calls of other contracts stopped.
    Load(LoadStop),
}

pub ghost enum CheckErrorV {
    DefineFunctionBadSignature,
    InvalidDefinition(Seq<char>),
    Load(StopV),
}

impl View for StaticCheckError {
    type V = CheckErrorV;

    open spec fn view(&self) -> CheckErrorV {
        match self {
            StaticCheckError::DefineFunctionBadSignature => CheckErrorV::DefineFunctionBadSignature,
            StaticCheckError::InvalidDefinition(message) => CheckErrorV::InvalidDefinition(
                message@,
            ),
            StaticCheckError::Load(stop) => CheckErrorV::Load(stop@),
        }
    }
}

} // verus!
