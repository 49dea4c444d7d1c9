//! What the analysis talks about: contracts, principals, storage, assets and
//! the effects that a function can have on them.
//!
//! Each type has a mathematical counterpart, its view, in which texts are
//! sequences of characters and effect sets are sets. Contracts of functions are
//! stated over the views. Values are ordered by their kind, then field by field.

use vstd::prelude::*;

use crate::codes::{
    compare_lists, compare_numbers, compare_options, duplicate_list, duplicate_option,
    lemma_list_code_forks, lemma_option_code_forks, lemma_tagged, lemma_text_code_forks, list_code,
    option_code, option_view, same_lists, same_option, text_code,
};
use crate::ordered::{lemma_compare_parts, lex_less, views, Comparison, Data, Ordered};

verus! {

/// A name of the Clarity language: of a function, a variable, a map or a token.
pub type ClarityName = String;

/// The view of a name.
pub type NameV = Seq<char>;

/// An account. Accounts are ordered by version and hash, which determine the address.
#[derive(Debug, Clone, PartialEq, Eq)]
pub struct StandardPrincipalData {
    pub version: u32,
    /// Two hexadecimal digits for each byte.
    pub hash: String,
    /// The account as it is written.
    pub address: String,
}

pub ghost struct AccountV {
    pub version: u32,
    pub hash: Seq<char>,
    pub address: Seq<char>,
}

impl View for StandardPrincipalData {
    type V = AccountV;

    open spec fn view(&self) -> AccountV {
        AccountV {
            version: self.version,
            hash: self.hash@,
            address: self.address@,
        }
    }
}

impl Data for StandardPrincipalData {
    fn duplicate(&self) -> (r: Self) {
        StandardPrincipalData {
            version: self.version,
            hash: self.hash.duplicate(),
            address: self.address.duplicate(),
        }
    }

    fn same(&self, other: &Self) -> (b: bool) {
        self.version == other.version && self.hash.same(&other.hash)
            && self.address.same(&other.address)
    }
}

impl Ordered for StandardPrincipalData {
    open spec fn code(v: AccountV) -> Seq<int> {
        seq![v.version as int] + (text_code(v.hash) + text_code(v.address))
    }

    proof fn lemma_code_forks(a: AccountV, b: AccountV) {
        if a.version != b.version {
            assert(seq![a.version as int][0] != seq![b.version as int][0]);
        }
        lemma_text_code_forks(a.hash, b.hash);
        lemma_text_code_forks(a.address, b.address);
        lemma_compare_parts(
            seq![a.version as int],
            seq![b.version as int],
            text_code(a.hash) + text_code(a.address),
            text_code(b.hash) + text_code(b.address),
        );
        lemma_compare_parts(
            text_code(a.hash),
            text_code(b.hash),
            text_code(a.address),
            text_code(b.address),
        );
    }

    fn compare(&self, other: &Self) -> (c: Comparison) {
        proof {
            let a = self@;
            let b = other@;
            if a.version != b.version {
                assert(seq![a.version as int][0] != seq![b.version as int][0]);
            }
            lemma_text_code_forks(a.hash, b.hash);
            lemma_text_code_forks(a.address, b.address);
            lemma_compare_parts(
                seq![a.version as int],
                seq![b.version as int],
                text_code(a.hash) + text_code(a.address),
                text_code(b.hash) + text_code(b.address),
            );
            lemma_compare_parts(
                text_code(a.hash),
                text_code(b.hash),
                text_code(a.address),
                text_code(b.address),
            );
        }
        match compare_numbers(self.version, other.version) {
            Comparison::Equal => {},
            c => {
                return c;
            },
        }
        match self.hash.compare(&other.hash) {
            Comparison::Equal => {},
            c => {
                return c;
            },
        }
        self.address.compare(&other.address)
    }
}

/// A contract: the account that issued it, and its name.
#[derive(Debug, Clone, PartialEq, Eq)]
pub struct QualifiedContractIdentifier {
    pub issuer: StandardPrincipalData,
    pub name: String,
}

pub ghost struct ContractIdV {
    pub issuer: AccountV,
    pub name: Seq<char>,
}

impl View for QualifiedContractIdentifier {
    type V = ContractIdV;

    open spec fn view(&self) -> ContractIdV {
        ContractIdV {
            issuer: self.issuer@,
            name: self.name@,
        }
    }
}

impl Data for QualifiedContractIdentifier {
    fn duplicate(&self) -> (r: Self) {
        QualifiedContractIdentifier {
            issuer: self.issuer.duplicate(),
            name: self.name.duplicate(),
        }
    }

    fn same(&self, other: &Self) -> (b: bool) {
        self.issuer.same(&other.issuer) && self.name.same(&other.name)
    }
}

impl Ordered for QualifiedContractIdentifier {
    open spec fn code(v: ContractIdV) -> Seq<int> {
        StandardPrincipalData::code(v.issuer) + text_code(v.name)
    }

    proof fn lemma_code_forks(a: ContractIdV, b: ContractIdV) {
        StandardPrincipalData::lemma_code_forks(a.issuer, b.issuer);
        lemma_text_code_forks(a.name, b.name);
        lemma_compare_parts(
            StandardPrincipalData::code(a.issuer),
            StandardPrincipalData::code(b.issuer),
            text_code(a.name),
            text_code(b.name),
        );
    }

    fn compare(&self, other: &Self) -> (c: Comparison) {
        proof {
            let a = self@;
            let b = other@;
            StandardPrincipalData::lemma_code_forks(a.issuer, b.issuer);
            lemma_text_code_forks(a.name, b.name);
            lemma_compare_parts(
                StandardPrincipalData::code(a.issuer),
                StandardPrincipalData::code(b.issuer),
                text_code(a.name),
                text_code(b.name),
            );
        }
        match self.issuer.compare(&other.issuer) {
            Comparison::Equal => {},
            c => {
                return c;
            },
        }
        self.name.compare(&other.name)
    }
}

/// An account or a contract.
#[derive(Debug, Clone, PartialEq, Eq)]
pub enum PrincipalData {
    Standard(StandardPrincipalData),
    Contract(QualifiedContractIdentifier),
}

pub ghost enum PrincipalV {
    Standard(AccountV),
    Contract(ContractIdV),
}

impl View for PrincipalData {
    type V = PrincipalV;

    open spec fn view(&self) -> PrincipalV {
        match self {
            PrincipalData::Standard(x) => PrincipalV::Standard(x@),
            PrincipalData::Contract(x) => PrincipalV::Contract(x@),
        }
    }
}

impl PrincipalV {
    /// The place of the kind among the kinds.
    pub open spec fn rank(self) -> u32 {
        match self {
            PrincipalV::Standard(..) => 0u32,
            PrincipalV::Contract(..) => 1u32,
        }
    }

    /// What orders the values of one kind.
    pub open spec fn body(self) -> Seq<int> {
        match self {
            PrincipalV::Standard(x) => StandardPrincipalData::code(x),
            PrincipalV::Contract(x) => QualifiedContractIdentifier::code(x),
        }
    }
}

impl PrincipalData {
    fn rank(&self) -> (n: u32)
        ensures
            n == self@.rank(),
    {
        match self {
            PrincipalData::Standard(..) => 0,
            PrincipalData::Contract(..) => 1,
        }
    }
}

impl Data for PrincipalData {
    fn duplicate(&self) -> (r: Self) {
        match self {
            PrincipalData::Standard(x) => PrincipalData::Standard(x.duplicate()),
            PrincipalData::Contract(x) => PrincipalData::Contract(x.duplicate()),
        }
    }

    fn same(&self, other: &Self) -> (b: bool) {
        match (self, other) {
            (PrincipalData::Standard(x), PrincipalData::Standard(y)) => x.same(y),
            (PrincipalData::Contract(x), PrincipalData::Contract(y)) => x.same(y),
            _ => false,
        }
    }
}

impl Ordered for PrincipalData {
    open spec fn code(v: PrincipalV) -> Seq<int> {
        seq![v.rank() as int] + v.body()
    }

    proof fn lemma_code_forks(a: PrincipalV, b: PrincipalV) {
        lemma_tagged(a.rank() as int, b.rank() as int, a.body(), b.body());
        match (a, b) {
            (PrincipalV::Standard(x), PrincipalV::Standard(y)) => {
                StandardPrincipalData::lemma_code_forks(x, y);
            },
            (PrincipalV::Contract(x), PrincipalV::Contract(y)) => {
                QualifiedContractIdentifier::lemma_code_forks(x, y);
            },
            _ => {},
        }
    }

    fn compare(&self, other: &Self) -> (c: Comparison) {
        let t: u32 = self.rank();
        let u: u32 = other.rank();
        proof {
            lemma_tagged(t as int, u as int, self@.body(), other@.body());
        }
        if t < u {
            Comparison::Less
        } else if u < t {
            Comparison::Greater
        } else {
            match (self, other) {
                (PrincipalData::Standard(x), PrincipalData::Standard(y)) => x.compare(y),
                (PrincipalData::Contract(x), PrincipalData::Contract(y)) => x.compare(y),
                _ => Comparison::Equal,
            }
        }
    }
}

/// Whom an access is attributed to.
#[derive(Debug, Clone, PartialEq, Eq)]
pub enum PrincipalReference {
    /// Someone that the analysis cannot tell.
    Any,
    Literal(PrincipalData),
    /// The value of the function argument with this index.
    Argument(u32),
    /// The sender of the transaction.
    TxSender,
    /// The caller of the contract.
    ContractCaller,
    /// The contract itself.
    CurrentContract,
}

pub ghost enum PrincipalRefV {
    Any,
    Literal(PrincipalV),
    Argument(u32),
    TxSender,
    ContractCaller,
    CurrentContract,
}

impl View for PrincipalReference {
    type V = PrincipalRefV;

    open spec fn view(&self) -> PrincipalRefV {
        match self {
            PrincipalReference::Any => PrincipalRefV::Any,
            PrincipalReference::Literal(x) => PrincipalRefV::Literal(x@),
            PrincipalReference::Argument(x) => PrincipalRefV::Argument(*x),
            PrincipalReference::TxSender => PrincipalRefV::TxSender,
            PrincipalReference::ContractCaller => PrincipalRefV::ContractCaller,
            PrincipalReference::CurrentContract => PrincipalRefV::CurrentContract,
        }
    }
}

impl PrincipalRefV {
    /// The place of the kind among the kinds.
    pub open spec fn rank(self) -> u32 {
        match self {
            PrincipalRefV::Any => 0u32,
            PrincipalRefV::Literal(..) => 1u32,
            PrincipalRefV::Argument(..) => 2u32,
            PrincipalRefV::TxSender => 3u32,
            PrincipalRefV::ContractCaller => 4u32,
            PrincipalRefV::CurrentContract => 5u32,
        }
    }

    /// What orders the values of one kind.
    pub open spec fn body(self) -> Seq<int> {
        match self {
            PrincipalRefV::Literal(x) => PrincipalData::code(x),
            PrincipalRefV::Argument(x) => seq![x as int],
            _ => Seq::empty(),
        }
    }
}

impl PrincipalReference {
    fn rank(&self) -> (n: u32)
        ensures
            n == self@.rank(),
    {
        match self {
            PrincipalReference::Any => 0,
            PrincipalReference::Literal(..) => 1,
            PrincipalReference::Argument(..) => 2,
            PrincipalReference::TxSender => 3,
            PrincipalReference::ContractCaller => 4,
            PrincipalReference::CurrentContract => 5,
        }
    }
}

impl Data for PrincipalReference {
    fn duplicate(&self) -> (r: Self) {
        match self {
            PrincipalReference::Any => PrincipalReference::Any,
            PrincipalReference::Literal(x) => PrincipalReference::Literal(x.duplicate()),
            PrincipalReference::Argument(x) => PrincipalReference::Argument(*x),
            PrincipalReference::TxSender => PrincipalReference::TxSender,
            PrincipalReference::ContractCaller => PrincipalReference::ContractCaller,
            PrincipalReference::CurrentContract => PrincipalReference::CurrentContract,
        }
    }

    fn same(&self, other: &Self) -> (b: bool) {
        match (self, other) {
            (PrincipalReference::Any, PrincipalReference::Any) => true,
            (PrincipalReference::Literal(x), PrincipalReference::Literal(y)) => x.same(y),
            (PrincipalReference::Argument(x), PrincipalReference::Argument(y)) => *x == *y,
            (PrincipalReference::TxSender, PrincipalReference::TxSender) => true,
            (PrincipalReference::ContractCaller, PrincipalReference::ContractCaller) => true,
            (PrincipalReference::CurrentContract, PrincipalReference::CurrentContract) => true,
            _ => false,
        }
    }
}

impl Ordered for PrincipalReference {
    open spec fn code(v: PrincipalRefV) -> Seq<int> {
        seq![v.rank() as int] + v.body()
    }

    proof fn lemma_code_forks(a: PrincipalRefV, b: PrincipalRefV) {
        lemma_tagged(a.rank() as int, b.rank() as int, a.body(), b.body());
        match (a, b) {
            (PrincipalRefV::Literal(x), PrincipalRefV::Literal(y)) => {
                PrincipalData::lemma_code_forks(x, y);
            },
            (PrincipalRefV::Argument(x), PrincipalRefV::Argument(y)) => {
                if x != y {
                    assert(seq![x as int][0] != seq![y as int][0]);
                }
            },
            _ => {},
        }
    }

    fn compare(&self, other: &Self) -> (c: Comparison) {
        let t: u32 = self.rank();
        let u: u32 = other.rank();
        proof {
            lemma_tagged(t as int, u as int, self@.body(), other@.body());
        }
        if t < u {
            Comparison::Less
        } else if u < t {
            Comparison::Greater
        } else {
            match (self, other) {
                (PrincipalReference::Literal(x), PrincipalReference::Literal(y)) => x.compare(y),
                (PrincipalReference::Argument(x), PrincipalReference::Argument(y)) => {
                    compare_numbers(*x, *y)
                },
                _ => Comparison::Equal,
            }
        }
    }
}

/// Which contract is accessed or called.
#[derive(Debug, Clone, PartialEq, Eq)]
pub enum ContractReference {
    /// One that the analysis cannot tell.
    Any,
    Literal(QualifiedContractIdentifier),
    /// The value of the function argument with this index.
    Argument(u32),
}

pub ghost enum ContractRefV {
    Any,
    Literal(ContractIdV),
    Argument(u32),
}

impl View for ContractReference {
    type V = ContractRefV;

    open spec fn view(&self) -> ContractRefV {
        match self {
            ContractReference::Any => ContractRefV::Any,
            ContractReference::Literal(x) => ContractRefV::Literal(x@),
            ContractReference::Argument(x) => ContractRefV::Argument(*x),
        }
    }
}

impl ContractRefV {
    /// The place of the kind among the kinds.
    pub open spec fn rank(self) -> u32 {
        match self {
            ContractRefV::Any => 0u32,
            ContractRefV::Literal(..) => 1u32,
            ContractRefV::Argument(..) => 2u32,
        }
    }

    /// What orders the values of one kind.
    pub open spec fn body(self) -> Seq<int> {
        match self {
            ContractRefV::Literal(x) => QualifiedContractIdentifier::code(x),
            ContractRefV::Argument(x) => seq![x as int],
            _ => Seq::empty(),
        }
    }
}

impl ContractReference {
    fn rank(&self) -> (n: u32)
        ensures
            n == self@.rank(),
    {
        match self {
            ContractReference::Any => 0,
            ContractReference::Literal(..) => 1,
            ContractReference::Argument(..) => 2,
        }
    }
}

impl Data for ContractReference {
    fn duplicate(&self) -> (r: Self) {
        match self {
            ContractReference::Any => ContractReference::Any,
            ContractReference::Literal(x) => ContractReference::Literal(x.duplicate()),
            ContractReference::Argument(x) => ContractReference::Argument(*x),
        }
    }

    fn same(&self, other: &Self) -> (b: bool) {
        match (self, other) {
            (ContractReference::Any, ContractReference::Any) => true,
            (ContractReference::Literal(x), ContractReference::Literal(y)) => x.same(y),
            (ContractReference::Argument(x), ContractReference::Argument(y)) => *x == *y,
            _ => false,
        }
    }
}

impl Ordered for ContractReference {
    open spec fn code(v: ContractRefV) -> Seq<int> {
        seq![v.rank() as int] + v.body()
    }

    proof fn lemma_code_forks(a: ContractRefV, b: ContractRefV) {
        lemma_tagged(a.rank() as int, b.rank() as int, a.body(), b.body());
        match (a, b) {
            (ContractRefV::Literal(x), ContractRefV::Literal(y)) => {
                QualifiedContractIdentifier::lemma_code_forks(x, y);
            },
            (ContractRefV::Argument(x), ContractRefV::Argument(y)) => {
                if x != y {
                    assert(seq![x as int][0] != seq![y as int][0]);
                }
            },
            _ => {},
        }
    }

    fn compare(&self, other: &Self) -> (c: Comparison) {
        let t: u32 = self.rank();
        let u: u32 = other.rank();
        proof {
            lemma_tagged(t as int, u as int, self@.body(), other@.body());
        }
        if t < u {
            Comparison::Less
        } else if u < t {
            Comparison::Greater
        } else {
            match (self, other) {
                (ContractReference::Literal(x), ContractReference::Literal(y)) => x.compare(y),
                (ContractReference::Argument(x), ContractReference::Argument(y)) => compare_numbers(
                    *x,
                    *y,
                ),
                _ => Comparison::Equal,
            }
        }
    }
}

/// A map or a variable of a contract.
#[derive(Debug, Clone, PartialEq, Eq)]
pub enum StorageLocation {
    DataMap(String),
    DataVar(String),
}

pub ghost enum LocationV {
    DataMap(Seq<char>),
    DataVar(Seq<char>),
}

impl View for StorageLocation {
    type V = LocationV;

    open spec fn view(&self) -> LocationV {
        match self {
            StorageLocation::DataMap(x) => LocationV::DataMap(x@),
            StorageLocation::DataVar(x) => LocationV::DataVar(x@),
        }
    }
}

impl LocationV {
    /// The place of the kind among the kinds.
    pub open spec fn rank(self) -> u32 {
        match self {
            LocationV::DataMap(..) => 0u32,
            LocationV::DataVar(..) => 1u32,
        }
    }

    /// What orders the values of one kind.
    pub open spec fn body(self) -> Seq<int> {
        match self {
            LocationV::DataMap(x) => text_code(x),
            LocationV::DataVar(x) => text_code(x),
        }
    }
}

impl StorageLocation {
    fn rank(&self) -> (n: u32)
        ensures
            n == self@.rank(),
    {
        match self {
            StorageLocation::DataMap(..) => 0,
            StorageLocation::DataVar(..) => 1,
        }
    }
}

impl Data for StorageLocation {
    fn duplicate(&self) -> (r: Self) {
        match self {
            StorageLocation::DataMap(x) => StorageLocation::DataMap(x.duplicate()),
            StorageLocation::DataVar(x) => StorageLocation::DataVar(x.duplicate()),
        }
    }

    fn same(&self, other: &Self) -> (b: bool) {
        match (self, other) {
            (StorageLocation::DataMap(x), StorageLocation::DataMap(y)) => x.same(y),
            (StorageLocation::DataVar(x), StorageLocation::DataVar(y)) => x.same(y),
            _ => false,
        }
    }
}

impl Ordered for StorageLocation {
    open spec fn code(v: LocationV) -> Seq<int> {
        seq![v.rank() as int] + v.body()
    }

    proof fn lemma_code_forks(a: LocationV, b: LocationV) {
        lemma_tagged(a.rank() as int, b.rank() as int, a.body(), b.body());
        match (a, b) {
            (LocationV::DataMap(x), LocationV::DataMap(y)) => {
                lemma_text_code_forks(x, y);
            },
            (LocationV::DataVar(x), LocationV::DataVar(y)) => {
                lemma_text_code_forks(x, y);
            },
            _ => {},
        }
    }

    fn compare(&self, other: &Self) -> (c: Comparison) {
        let t: u32 = self.rank();
        let u: u32 = other.rank();
        proof {
            lemma_tagged(t as int, u as int, self@.body(), other@.body());
        }
        if t < u {
            Comparison::Less
        } else if u < t {
            Comparison::Greater
        } else {
            match (self, other) {
                (StorageLocation::DataMap(x), StorageLocation::DataMap(y)) => x.compare(y),
                (StorageLocation::DataVar(x), StorageLocation::DataVar(y)) => x.compare(y),
                _ => Comparison::Equal,
            }
        }
    }
}

/// An access to the storage of a contract; without a location, to any part of it.
#[derive(Debug, Clone, PartialEq, Eq)]
pub struct ContractStorageAccess {
    pub contract: ContractReference,
    pub location: Option<StorageLocation>,
}

pub ghost struct StorageAccessV {
    pub contract: ContractRefV,
    pub location: Option<LocationV>,
}

impl View for ContractStorageAccess {
    type V = StorageAccessV;

    open spec fn view(&self) -> StorageAccessV {
        StorageAccessV {
            contract: self.contract@,
            location: option_view(self.location),
        }
    }
}

impl Data for ContractStorageAccess {
    fn duplicate(&self) -> (r: Self) {
        ContractStorageAccess {
            contract: self.contract.duplicate(),
            location: duplicate_option(&self.location),
        }
    }

    fn same(&self, other: &Self) -> (b: bool) {
        self.contract.same(&other.contract) && same_option(&self.location, &other.location)
    }
}

impl Ordered for ContractStorageAccess {
    open spec fn code(v: StorageAccessV) -> Seq<int> {
        ContractReference::code(v.contract) + option_code::<StorageLocation>(v.location)
    }

    proof fn lemma_code_forks(a: StorageAccessV, b: StorageAccessV) {
        ContractReference::lemma_code_forks(a.contract, b.contract);
        lemma_option_code_forks::<StorageLocation>(a.location, b.location);
        lemma_compare_parts(
            ContractReference::code(a.contract),
            ContractReference::code(b.contract),
            option_code::<StorageLocation>(a.location),
            option_code::<StorageLocation>(b.location),
        );
    }

    fn compare(&self, other: &Self) -> (c: Comparison) {
        proof {
            let a = self@;
            let b = other@;
            ContractReference::lemma_code_forks(a.contract, b.contract);
            lemma_option_code_forks::<StorageLocation>(a.location, b.location);
            lemma_compare_parts(
                ContractReference::code(a.contract),
                ContractReference::code(b.contract),
                option_code::<StorageLocation>(a.location),
                option_code::<StorageLocation>(b.location),
            );
        }
        match self.contract.compare(&other.contract) {
            Comparison::Equal => {},
            c => {
                return c;
            },
        }
        compare_options(&self.location, &other.location)
    }
}

/// The two kinds of token.
#[derive(Debug, Clone, PartialEq, Eq)]
pub enum TokenKind {
    Fungible,
    NonFungible,
}

pub ghost enum TokenKindV {
    Fungible,
    NonFungible,
}

impl View for TokenKind {
    type V = TokenKindV;

    open spec fn view(&self) -> TokenKindV {
        match self {
            TokenKind::Fungible => TokenKindV::Fungible,
            TokenKind::NonFungible => TokenKindV::NonFungible,
        }
    }
}

impl TokenKindV {
    /// The place of the kind among the kinds.
    pub open spec fn rank(self) -> u32 {
        match self {
            TokenKindV::Fungible => 0u32,
            TokenKindV::NonFungible => 1u32,
        }
    }

    /// What orders the values of one kind.
    pub open spec fn body(self) -> Seq<int> {
        match self {
            _ => Seq::empty(),
        }
    }
}

impl TokenKind {
    fn rank(&self) -> (n: u32)
        ensures
            n == self@.rank(),
    {
        match self {
            TokenKind::Fungible => 0,
            TokenKind::NonFungible => 1,
        }
    }
}

impl Data for TokenKind {
    fn duplicate(&self) -> (r: Self) {
        match self {
            TokenKind::Fungible => TokenKind::Fungible,
            TokenKind::NonFungible => TokenKind::NonFungible,
        }
    }

    fn same(&self, other: &Self) -> (b: bool) {
        match (self, other) {
            (TokenKind::Fungible, TokenKind::Fungible) => true,
            (TokenKind::NonFungible, TokenKind::NonFungible) => true,
            _ => false,
        }
    }
}

impl Ordered for TokenKind {
    open spec fn code(v: TokenKindV) -> Seq<int> {
        seq![v.rank() as int] + v.body()
    }

    proof fn lemma_code_forks(a: TokenKindV, b: TokenKindV) {
        lemma_tagged(a.rank() as int, b.rank() as int, a.body(), b.body());
        match (a, b) {
            _ => {},
        }
    }

    fn compare(&self, other: &Self) -> (c: Comparison) {
        let t: u32 = self.rank();
        let u: u32 = other.rank();
        proof {
            lemma_tagged(t as int, u as int, self@.body(), other@.body());
        }
        if t < u {
            Comparison::Less
        } else if u < t {
            Comparison::Greater
        } else {
            match (self, other) {
                _ => Comparison::Equal,
            }
        }
    }
}

/// The native token of the chain, or a token that a contract defines.
#[derive(Debug, Clone, PartialEq, Eq)]
pub enum AssetId {
    Stx,
    Token { contract: QualifiedContractIdentifier, name: String, kind: TokenKind },
}

pub ghost enum AssetV {
    Stx,
    Token { contract: ContractIdV, name: Seq<char>, kind: TokenKindV },
}

impl View for AssetId {
    type V = AssetV;

    open spec fn view(&self) -> AssetV {
        match self {
            AssetId::Stx => AssetV::Stx,
            AssetId::Token { contract, name, kind } => AssetV::Token {
                contract: contract@,
                name: name@,
                kind: kind@,
            },
        }
    }
}

impl AssetV {
    /// The place of the kind among the kinds.
    pub open spec fn rank(self) -> u32 {
        match self {
            AssetV::Stx => 0u32,
            AssetV::Token { .. } => 1u32,
        }
    }

    /// What orders the values of one kind.
    pub open spec fn body(self) -> Seq<int> {
        match self {
            AssetV::Token { contract, name, kind } => {
                QualifiedContractIdentifier::code(contract)
                    + (text_code(name) + TokenKind::code(kind))
            },
            _ => Seq::empty(),
        }
    }
}

impl AssetId {
    fn rank(&self) -> (n: u32)
        ensures
            n == self@.rank(),
    {
        match self {
            AssetId::Stx => 0,
            AssetId::Token { .. } => 1,
        }
    }
}

impl Data for AssetId {
    fn duplicate(&self) -> (r: Self) {
        match self {
            AssetId::Stx => AssetId::Stx,
            AssetId::Token { contract, name, kind } => AssetId::Token {
                contract: contract.duplicate(),
                name: name.duplicate(),
                kind: kind.duplicate(),
            },
        }
    }

    fn same(&self, other: &Self) -> (b: bool) {
        match (self, other) {
            (AssetId::Stx, AssetId::Stx) => true,
            (
                AssetId::Token { contract: contract1, name: name1, kind: kind1 },
                AssetId::Token { contract: contract2, name: name2, kind: kind2 },
            ) => {
                contract1.same(contract2) && name1.same(name2) && kind1.same(kind2)
            },
            _ => false,
        }
    }
}

impl Ordered for AssetId {
    open spec fn code(v: AssetV) -> Seq<int> {
        seq![v.rank() as int] + v.body()
    }

    proof fn lemma_code_forks(a: AssetV, b: AssetV) {
        lemma_tagged(a.rank() as int, b.rank() as int, a.body(), b.body());
        match (a, b) {
            (
                AssetV::Token { contract: contract1, name: name1, kind: kind1 },
                AssetV::Token { contract: contract2, name: name2, kind: kind2 },
            ) => {
                QualifiedContractIdentifier::lemma_code_forks(contract1, contract2);
                lemma_text_code_forks(name1, name2);
                TokenKind::lemma_code_forks(kind1, kind2);
                lemma_compare_parts(
                    QualifiedContractIdentifier::code(contract1),
                    QualifiedContractIdentifier::code(contract2),
                    text_code(name1) + TokenKind::code(kind1),
                    text_code(name2) + TokenKind::code(kind2),
                );
                lemma_compare_parts(
                    text_code(name1),
                    text_code(name2),
                    TokenKind::code(kind1),
                    TokenKind::code(kind2),
                );
            },
            _ => {},
        }
    }

    fn compare(&self, other: &Self) -> (c: Comparison) {
        let t: u32 = self.rank();
        let u: u32 = other.rank();
        proof {
            lemma_tagged(t as int, u as int, self@.body(), other@.body());
        }
        if t < u {
            Comparison::Less
        } else if u < t {
            Comparison::Greater
        } else {
            match (self, other) {
                (
                    AssetId::Token { contract: contract1, name: name1, kind: kind1 },
                    AssetId::Token { contract: contract2, name: name2, kind: kind2 },
                ) => {
                    proof {
                        QualifiedContractIdentifier::lemma_code_forks(contract1@, contract2@);
                        lemma_text_code_forks(name1@, name2@);
                        TokenKind::lemma_code_forks(kind1@, kind2@);
                        lemma_compare_parts(
                            QualifiedContractIdentifier::code(contract1@),
                            QualifiedContractIdentifier::code(contract2@),
                            text_code(name1@) + TokenKind::code(kind1@),
                            text_code(name2@) + TokenKind::code(kind2@),
                        );
                        lemma_compare_parts(
                            text_code(name1@),
                            text_code(name2@),
                            TokenKind::code(kind1@),
                            TokenKind::code(kind2@),
                        );
                    }
                    match contract1.compare(contract2) {
                        Comparison::Equal => {},
                        c => {
                            return c;
                        },
                    }
                    match name1.compare(name2) {
                        Comparison::Equal => {},
                        c => {
                            return c;
                        },
                    }
                    kind1.compare(kind2)
                },
                _ => Comparison::Equal,
            }
        }
    }
}

/// An access to what a principal owns of an asset.
#[derive(Debug, Clone, PartialEq, Eq)]
pub struct AssetOwnershipAccess {
    pub asset: AssetId,
    pub principal: PrincipalReference,
}

pub ghost struct OwnershipAccessV {
    pub asset: AssetV,
    pub principal: PrincipalRefV,
}

impl View for AssetOwnershipAccess {
    type V = OwnershipAccessV;

    open spec fn view(&self) -> OwnershipAccessV {
        OwnershipAccessV {
            asset: self.asset@,
            principal: self.principal@,
        }
    }
}

impl Data for AssetOwnershipAccess {
    fn duplicate(&self) -> (r: Self) {
        AssetOwnershipAccess {
            asset: self.asset.duplicate(),
            principal: self.principal.duplicate(),
        }
    }

    fn same(&self, other: &Self) -> (b: bool) {
        self.asset.same(&other.asset) && self.principal.same(&other.principal)
    }
}

impl Ordered for AssetOwnershipAccess {
    open spec fn code(v: OwnershipAccessV) -> Seq<int> {
        AssetId::code(v.asset) + PrincipalReference::code(v.principal)
    }

    proof fn lemma_code_forks(a: OwnershipAccessV, b: OwnershipAccessV) {
        AssetId::lemma_code_forks(a.asset, b.asset);
        PrincipalReference::lemma_code_forks(a.principal, b.principal);
        lemma_compare_parts(
            AssetId::code(a.asset),
            AssetId::code(b.asset),
            PrincipalReference::code(a.principal),
            PrincipalReference::code(b.principal),
        );
    }

    fn compare(&self, other: &Self) -> (c: Comparison) {
        proof {
            let a = self@;
            let b = other@;
            AssetId::lemma_code_forks(a.asset, b.asset);
            PrincipalReference::lemma_code_forks(a.principal, b.principal);
            lemma_compare_parts(
                AssetId::code(a.asset),
                AssetId::code(b.asset),
                PrincipalReference::code(a.principal),
                PrincipalReference::code(b.principal),
            );
        }
        match self.asset.compare(&other.asset) {
            Comparison::Equal => {},
            c => {
                return c;
            },
        }
        self.principal.compare(&other.principal)
    }
}

/// An access to the nonce of an account.
#[derive(Debug, Clone, PartialEq, Eq)]
pub struct AccountNonceAccess {
    pub principal: PrincipalReference,
}

pub ghost struct NonceAccessV {
    pub principal: PrincipalRefV,
}

impl View for AccountNonceAccess {
    type V = NonceAccessV;

    open spec fn view(&self) -> NonceAccessV {
        NonceAccessV {
            principal: self.principal@,
        }
    }
}

impl Data for AccountNonceAccess {
    fn duplicate(&self) -> (r: Self) {
        AccountNonceAccess {
            principal: self.principal.duplicate(),
        }
    }

    fn same(&self, other: &Self) -> (b: bool) {
        self.principal.same(&other.principal)
    }
}

impl Ordered for AccountNonceAccess {
    open spec fn code(v: NonceAccessV) -> Seq<int> {
        PrincipalReference::code(v.principal)
    }

    proof fn lemma_code_forks(a: NonceAccessV, b: NonceAccessV) {
        PrincipalReference::lemma_code_forks(a.principal, b.principal);
    }

    fn compare(&self, other: &Self) -> (c: Comparison) {
        self.principal.compare(&other.principal)
    }
}

/// A part of the chain state.
#[derive(Debug, Clone, PartialEq, Eq)]
pub enum ChainStateRead {
    BlockInfo,
    StacksBlockInfo,
    BurnBlockInfo,
    TenureInfo,
}

pub ghost enum ChainReadV {
    BlockInfo,
    StacksBlockInfo,
    BurnBlockInfo,
    TenureInfo,
}

impl View for ChainStateRead {
    type V = ChainReadV;

    open spec fn view(&self) -> ChainReadV {
        match self {
            ChainStateRead::BlockInfo => ChainReadV::BlockInfo,
            ChainStateRead::StacksBlockInfo => ChainReadV::StacksBlockInfo,
            ChainStateRead::BurnBlockInfo => ChainReadV::BurnBlockInfo,
            ChainStateRead::TenureInfo => ChainReadV::TenureInfo,
        }
    }
}

impl ChainReadV {
    /// The place of the kind among the kinds.
    pub open spec fn rank(self) -> u32 {
        match self {
            ChainReadV::BlockInfo => 0u32,
            ChainReadV::StacksBlockInfo => 1u32,
            ChainReadV::BurnBlockInfo => 2u32,
            ChainReadV::TenureInfo => 3u32,
        }
    }

    /// What orders the values of one kind.
    pub open spec fn body(self) -> Seq<int> {
        match self {
            _ => Seq::empty(),
        }
    }
}

impl ChainStateRead {
    fn rank(&self) -> (n: u32)
        ensures
            n == self@.rank(),
    {
        match self {
            ChainStateRead::BlockInfo => 0,
            ChainStateRead::StacksBlockInfo => 1,
            ChainStateRead::BurnBlockInfo => 2,
            ChainStateRead::TenureInfo => 3,
        }
    }
}

impl Data for ChainStateRead {
    fn duplicate(&self) -> (r: Self) {
        match self {
            ChainStateRead::BlockInfo => ChainStateRead::BlockInfo,
            ChainStateRead::StacksBlockInfo => ChainStateRead::StacksBlockInfo,
            ChainStateRead::BurnBlockInfo => ChainStateRead::BurnBlockInfo,
            ChainStateRead::TenureInfo => ChainStateRead::TenureInfo,
        }
    }

    fn same(&self, other: &Self) -> (b: bool) {
        match (self, other) {
            (ChainStateRead::BlockInfo, ChainStateRead::BlockInfo) => true,
            (ChainStateRead::StacksBlockInfo, ChainStateRead::StacksBlockInfo) => true,
            (ChainStateRead::BurnBlockInfo, ChainStateRead::BurnBlockInfo) => true,
            (ChainStateRead::TenureInfo, ChainStateRead::TenureInfo) => true,
            _ => false,
        }
    }
}

impl Ordered for ChainStateRead {
    open spec fn code(v: ChainReadV) -> Seq<int> {
        seq![v.rank() as int] + v.body()
    }

    proof fn lemma_code_forks(a: ChainReadV, b: ChainReadV) {
        lemma_tagged(a.rank() as int, b.rank() as int, a.body(), b.body());
        match (a, b) {
            _ => {},
        }
    }

    fn compare(&self, other: &Self) -> (c: Comparison) {
        let t: u32 = self.rank();
        let u: u32 = other.rank();
        proof {
            lemma_tagged(t as int, u as int, self@.body(), other@.body());
        }
        if t < u {
            Comparison::Less
        } else if u < t {
            Comparison::Greater
        } else {
            match (self, other) {
                _ => Comparison::Equal,
            }
        }
    }
}

/// What is read or written.
#[derive(Debug, Clone, PartialEq, Eq)]
pub enum EffectTarget {
    Contract(ContractStorageAccess),
    AssetOwnership(AssetOwnershipAccess),
    AccountNonce(AccountNonceAccess),
    ChainState(ChainStateRead),
}

pub ghost enum TargetV {
    Contract(StorageAccessV),
    AssetOwnership(OwnershipAccessV),
    AccountNonce(NonceAccessV),
    ChainState(ChainReadV),
}

impl View for EffectTarget {
    type V = TargetV;

    open spec fn view(&self) -> TargetV {
        match self {
            EffectTarget::Contract(x) => TargetV::Contract(x@),
            EffectTarget::AssetOwnership(x) => TargetV::AssetOwnership(x@),
            EffectTarget::AccountNonce(x) => TargetV::AccountNonce(x@),
            EffectTarget::ChainState(x) => TargetV::ChainState(x@),
        }
    }
}

impl TargetV {
    /// The place of the kind among the kinds.
    pub open spec fn rank(self) -> u32 {
        match self {
            TargetV::Contract(..) => 0u32,
            TargetV::AssetOwnership(..) => 1u32,
            TargetV::AccountNonce(..) => 2u32,
            TargetV::ChainState(..) => 3u32,
        }
    }

    /// What orders the values of one kind.
    pub open spec fn body(self) -> Seq<int> {
        match self {
            TargetV::Contract(x) => ContractStorageAccess::code(x),
            TargetV::AssetOwnership(x) => AssetOwnershipAccess::code(x),
            TargetV::AccountNonce(x) => AccountNonceAccess::code(x),
            TargetV::ChainState(x) => ChainStateRead::code(x),
        }
    }
}

impl EffectTarget {
    fn rank(&self) -> (n: u32)
        ensures
            n == self@.rank(),
    {
        match self {
            EffectTarget::Contract(..) => 0,
            EffectTarget::AssetOwnership(..) => 1,
            EffectTarget::AccountNonce(..) => 2,
            EffectTarget::ChainState(..) => 3,
        }
    }
}

impl Data for EffectTarget {
    fn duplicate(&self) -> (r: Self) {
        match self {
            EffectTarget::Contract(x) => EffectTarget::Contract(x.duplicate()),
            EffectTarget::AssetOwnership(x) => EffectTarget::AssetOwnership(x.duplicate()),
            EffectTarget::AccountNonce(x) => EffectTarget::AccountNonce(x.duplicate()),
            EffectTarget::ChainState(x) => EffectTarget::ChainState(x.duplicate()),
        }
    }

    fn same(&self, other: &Self) -> (b: bool) {
        match (self, other) {
            (EffectTarget::Contract(x), EffectTarget::Contract(y)) => x.same(y),
            (EffectTarget::AssetOwnership(x), EffectTarget::AssetOwnership(y)) => x.same(y),
            (EffectTarget::AccountNonce(x), EffectTarget::AccountNonce(y)) => x.same(y),
            (EffectTarget::ChainState(x), EffectTarget::ChainState(y)) => x.same(y),
            _ => false,
        }
    }
}

impl Ordered for EffectTarget {
    open spec fn code(v: TargetV) -> Seq<int> {
        seq![v.rank() as int] + v.body()
    }

    proof fn lemma_code_forks(a: TargetV, b: TargetV) {
        lemma_tagged(a.rank() as int, b.rank() as int, a.body(), b.body());
        match (a, b) {
            (TargetV::Contract(x), TargetV::Contract(y)) => {
                ContractStorageAccess::lemma_code_forks(x, y);
            },
            (TargetV::AssetOwnership(x), TargetV::AssetOwnership(y)) => {
                AssetOwnershipAccess::lemma_code_forks(x, y);
            },
            (TargetV::AccountNonce(x), TargetV::AccountNonce(y)) => {
                AccountNonceAccess::lemma_code_forks(x, y);
            },
            (TargetV::ChainState(x), TargetV::ChainState(y)) => {
                ChainStateRead::lemma_code_forks(x, y);
            },
            _ => {},
        }
    }

    fn compare(&self, other: &Self) -> (c: Comparison) {
        let t: u32 = self.rank();
        let u: u32 = other.rank();
        proof {
            lemma_tagged(t as int, u as int, self@.body(), other@.body());
        }
        if t < u {
            Comparison::Less
        } else if u < t {
            Comparison::Greater
        } else {
            match (self, other) {
                (EffectTarget::Contract(x), EffectTarget::Contract(y)) => x.compare(y),
                (EffectTarget::AssetOwnership(x), EffectTarget::AssetOwnership(y)) => x.compare(y),
                (EffectTarget::AccountNonce(x), EffectTarget::AccountNonce(y)) => x.compare(y),
                (EffectTarget::ChainState(x), EffectTarget::ChainState(y)) => x.compare(y),
                _ => Comparison::Equal,
            }
        }
    }
}

/// A call of a function of another contract.
#[derive(Debug, Clone, PartialEq, Eq)]
pub struct ContractCall {
    pub contract: ContractReference,
    pub function: String,
    /// The principals that the arguments stand for.
    pub arg_principals: Vec<PrincipalReference>,
    /// The contract in which the call is written.
    pub caller: Option<QualifiedContractIdentifier>,
}

pub ghost struct CallV {
    pub contract: ContractRefV,
    pub function: Seq<char>,
    pub arg_principals: Seq<PrincipalRefV>,
    pub caller: Option<ContractIdV>,
}

impl View for ContractCall {
    type V = CallV;

    open spec fn view(&self) -> CallV {
        CallV {
            contract: self.contract@,
            function: self.function@,
            arg_principals: views(self.arg_principals@),
            caller: option_view(self.caller),
        }
    }
}

impl Data for ContractCall {
    fn duplicate(&self) -> (r: Self) {
        ContractCall {
            contract: self.contract.duplicate(),
            function: self.function.duplicate(),
            arg_principals: duplicate_list(&self.arg_principals),
            caller: duplicate_option(&self.caller),
        }
    }

    fn same(&self, other: &Self) -> (b: bool) {
        self.contract.same(&other.contract) && self.function.same(&other.function)
            && same_lists(&self.arg_principals, &other.arg_principals)
            && same_option(&self.caller, &other.caller)
    }
}

impl Ordered for ContractCall {
    open spec fn code(v: CallV) -> Seq<int> {
        ContractReference::code(v.contract)
            + (
                text_code(v.function)
                    + (
                        list_code::<PrincipalReference>(v.arg_principals)
                            + option_code::<QualifiedContractIdentifier>(v.caller)
                    )
            )
    }

    proof fn lemma_code_forks(a: CallV, b: CallV) {
        ContractReference::lemma_code_forks(a.contract, b.contract);
        lemma_text_code_forks(a.function, b.function);
        lemma_list_code_forks::<PrincipalReference>(a.arg_principals, b.arg_principals);
        lemma_option_code_forks::<QualifiedContractIdentifier>(a.caller, b.caller);
        lemma_compare_parts(
            ContractReference::code(a.contract),
            ContractReference::code(b.contract),
            text_code(a.function)
                + (
                    list_code::<PrincipalReference>(a.arg_principals)
                        + option_code::<QualifiedContractIdentifier>(a.caller)
                ),
            text_code(b.function)
                + (
                    list_code::<PrincipalReference>(b.arg_principals)
                        + option_code::<QualifiedContractIdentifier>(b.caller)
                ),
        );
        lemma_compare_parts(
            text_code(a.function),
            text_code(b.function),
            list_code::<PrincipalReference>(a.arg_principals)
                + option_code::<QualifiedContractIdentifier>(a.caller),
            list_code::<PrincipalReference>(b.arg_principals)
                + option_code::<QualifiedContractIdentifier>(b.caller),
        );
        lemma_compare_parts(
            list_code::<PrincipalReference>(a.arg_principals),
            list_code::<PrincipalReference>(b.arg_principals),
            option_code::<QualifiedContractIdentifier>(a.caller),
            option_code::<QualifiedContractIdentifier>(b.caller),
        );
    }

    fn compare(&self, other: &Self) -> (c: Comparison) {
        proof {
            let a = self@;
            let b = other@;
            ContractReference::lemma_code_forks(a.contract, b.contract);
            lemma_text_code_forks(a.function, b.function);
            lemma_list_code_forks::<PrincipalReference>(a.arg_principals, b.arg_principals);
            lemma_option_code_forks::<QualifiedContractIdentifier>(a.caller, b.caller);
            lemma_compare_parts(
                ContractReference::code(a.contract),
                ContractReference::code(b.contract),
                text_code(a.function)
                    + (
                        list_code::<PrincipalReference>(a.arg_principals)
                            + option_code::<QualifiedContractIdentifier>(a.caller)
                    ),
                text_code(b.function)
                    + (
                        list_code::<PrincipalReference>(b.arg_principals)
                            + option_code::<QualifiedContractIdentifier>(b.caller)
                    ),
            );
            lemma_compare_parts(
                text_code(a.function),
                text_code(b.function),
                list_code::<PrincipalReference>(a.arg_principals)
                    + option_code::<QualifiedContractIdentifier>(a.caller),
                list_code::<PrincipalReference>(b.arg_principals)
                    + option_code::<QualifiedContractIdentifier>(b.caller),
            );
            lemma_compare_parts(
                list_code::<PrincipalReference>(a.arg_principals),
                list_code::<PrincipalReference>(b.arg_principals),
                option_code::<QualifiedContractIdentifier>(a.caller),
                option_code::<QualifiedContractIdentifier>(b.caller),
            );
        }
        match self.contract.compare(&other.contract) {
            Comparison::Equal => {},
            c => {
                return c;
            },
        }
        match self.function.compare(&other.function) {
            Comparison::Equal => {},
            c => {
                return c;
            },
        }
        match compare_lists(&self.arg_principals, &other.arg_principals) {
            Comparison::Equal => {},
            c => {
                return c;
            },
        }
        compare_options(&self.caller, &other.caller)
    }
}

/// A function of a contract.
#[derive(Debug, Clone, PartialEq, Eq)]
pub struct FunctionReference {
    pub contract: QualifiedContractIdentifier,
    pub function: String,
}

pub ghost struct FunctionRefV {
    pub contract: ContractIdV,
    pub function: Seq<char>,
}

impl View for FunctionReference {
    type V = FunctionRefV;

    open spec fn view(&self) -> FunctionRefV {
        FunctionRefV {
            contract: self.contract@,
            function: self.function@,
        }
    }
}

impl Data for FunctionReference {
    fn duplicate(&self) -> (r: Self) {
        FunctionReference {
            contract: self.contract.duplicate(),
            function: self.function.duplicate(),
        }
    }

    fn same(&self, other: &Self) -> (b: bool) {
        self.contract.same(&other.contract) && self.function.same(&other.function)
    }
}

impl Ordered for FunctionReference {
    open spec fn code(v: FunctionRefV) -> Seq<int> {
        QualifiedContractIdentifier::code(v.contract) + text_code(v.function)
    }

    proof fn lemma_code_forks(a: FunctionRefV, b: FunctionRefV) {
        QualifiedContractIdentifier::lemma_code_forks(a.contract, b.contract);
        lemma_text_code_forks(a.function, b.function);
        lemma_compare_parts(
            QualifiedContractIdentifier::code(a.contract),
            QualifiedContractIdentifier::code(b.contract),
            text_code(a.function),
            text_code(b.function),
        );
    }

    fn compare(&self, other: &Self) -> (c: Comparison) {
        proof {
            let a = self@;
            let b = other@;
            QualifiedContractIdentifier::lemma_code_forks(a.contract, b.contract);
            lemma_text_code_forks(a.function, b.function);
            lemma_compare_parts(
                QualifiedContractIdentifier::code(a.contract),
                QualifiedContractIdentifier::code(b.contract),
                text_code(a.function),
                text_code(b.function),
            );
        }
        match self.contract.compare(&other.contract) {
            Comparison::Equal => {},
            c => {
                return c;
            },
        }
        self.function.compare(&other.function)
    }
}

impl AssetId {
    /// The native token.
    pub fn stx() -> (a: Self)
        ensures
            a@ == AssetV::Stx,
    {
        AssetId::Stx
    }

    /// A token of a contract.
    pub fn token(contract: QualifiedContractIdentifier, name: ClarityName, kind: TokenKind) -> (a:
        Self)
        ensures
            a@ == (AssetV::Token { contract: contract@, name: name@, kind: kind@ }),
    {
        AssetId::Token { contract, name, kind }
    }
}

/// Targets are listed by kind: first the storage of contracts, then what is owned, then
/// nonces, then the chain.
pub proof fn law_targets_are_listed_by_kind(a: TargetV, b: TargetV)
    ensures
        a is Contract && !(b is Contract) ==> lex_less(
            EffectTarget::code(a),
            EffectTarget::code(b),
        ),
        a is AssetOwnership && (b is AccountNonce || b is ChainState) ==> lex_less(
            EffectTarget::code(a),
            EffectTarget::code(b),
        ),
        a is AccountNonce && b is ChainState ==> lex_less(
            EffectTarget::code(a),
            EffectTarget::code(b),
        ),
{
    assert(EffectTarget::code(a)[0] == a.rank());
    assert(EffectTarget::code(b)[0] == b.rank());
}

} // verus!
