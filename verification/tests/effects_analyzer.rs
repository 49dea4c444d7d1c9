//! The analysis of whole contracts, written as Clarity source.

use clarity_effects::analyzer::EffectsAnalyzer;
use clarity_effects::contracts::{ContractStore, LoadStop, Lookup};
use clarity_effects::effects::{Contracts, FunctionEffects, Functions, Purity};
use clarity_effects::ordered::OrderedMap;
use clarity_effects::syntax::{
    ClarityVersion, ContractAnalysis, DefineFunctionsParsed, NativeFunctions, NativeTable,
    StaticCheckError, SymbolicExpression, TopLevel, Value,
};
use clarity_effects::types::{
    AssetId, AssetOwnershipAccess, ChainStateRead, ContractCall, ContractReference,
    ContractStorageAccess, EffectTarget, PrincipalData, PrincipalReference,
    QualifiedContractIdentifier, StandardPrincipalData, StorageLocation, TokenKind,
};

const LOCAL_ISSUER: &str = "S1G2081040G2081040G2081040G208105NK8PE5";

fn account(address: &str) -> StandardPrincipalData {
    StandardPrincipalData {
        version: 22,
        hash: String::new(),
        address: address.to_string(),
    }
}

fn local(name: &str) -> QualifiedContractIdentifier {
    QualifiedContractIdentifier {
        issuer: account(LOCAL_ISSUER),
        name: name.to_string(),
    }
}

fn natives(version: ClarityVersion) -> NativeTable {
    let mut table = OrderedMap::new();
    let common = [
        ("var-get", NativeFunctions::FetchVar),
        ("var-set", NativeFunctions::SetVar),
        ("map-get?", NativeFunctions::FetchEntry),
        ("map-set", NativeFunctions::SetEntry),
        ("map-insert", NativeFunctions::InsertEntry),
        ("map-delete", NativeFunctions::DeleteEntry),
        ("get-burn-block-info?", NativeFunctions::GetBurnBlockInfo),
        ("stx-get-balance", NativeFunctions::GetStxBalance),
        ("stx-account", NativeFunctions::StxGetAccount),
        ("stx-transfer?", NativeFunctions::StxTransfer),
        ("stx-transfer-memo?", NativeFunctions::StxTransferMemo),
        ("stx-burn?", NativeFunctions::StxBurn),
        ("ft-get-balance", NativeFunctions::GetTokenBalance),
        ("ft-get-supply", NativeFunctions::GetTokenSupply),
        ("ft-transfer?", NativeFunctions::TransferToken),
        ("ft-mint?", NativeFunctions::MintToken),
        ("ft-burn?", NativeFunctions::BurnToken),
        ("nft-get-owner?", NativeFunctions::GetAssetOwner),
        ("nft-transfer?", NativeFunctions::TransferAsset),
        ("nft-mint?", NativeFunctions::MintAsset),
        ("nft-burn?", NativeFunctions::BurnAsset),
        ("contract-call?", NativeFunctions::ContractCall),
        ("let", NativeFunctions::Let),
        ("begin", NativeFunctions::Other),
        ("ok", NativeFunctions::Other),
        ("err", NativeFunctions::Other),
        ("unwrap!", NativeFunctions::Other),
        ("tuple", NativeFunctions::Other),
        ("as-contract", NativeFunctions::Other),
        ("if", NativeFunctions::Other),
        ("+", NativeFunctions::Other),
    ];
    for (name, native) in common {
        table.insert(name.to_string(), native);
    }
    match version {
        ClarityVersion::Clarity1 | ClarityVersion::Clarity2 => {
            table.insert("get-block-info?".to_string(), NativeFunctions::GetBlockInfo);
        }
        _ => {
            table.insert(
                "get-stacks-block-info?".to_string(),
                NativeFunctions::GetStacksBlockInfo,
            );
            table.insert("get-tenure-info?".to_string(), NativeFunctions::GetTenureInfo);
        }
    }
    table
}

fn tokens(source: &str) -> Vec<String> {
    let mut out = Vec::new();
    let mut word = String::new();
    for c in source.chars() {
        if c.is_whitespace() || "(){},".contains(c) {
            if !word.is_empty() {
                out.push(word.clone());
                word.clear();
            }
            if "(){}".contains(c) {
                out.push(c.to_string());
            }
        } else {
            word.push(c);
        }
    }
    if !word.is_empty() {
        out.push(word);
    }
    out
}

fn word_expr(word: &str) -> SymbolicExpression {
    if let Some(name) = word.strip_prefix('.') {
        return SymbolicExpression::LiteralValue(Value::Principal(PrincipalData::Contract(local(
            name,
        ))));
    }
    if let Some(address) = word.strip_prefix('\'') {
        let principal = match address.split_once('.') {
            Some((issuer, name)) => PrincipalData::Contract(QualifiedContractIdentifier {
                issuer: account(issuer),
                name: name.to_string(),
            }),
            None => PrincipalData::Standard(account(address)),
        };
        return SymbolicExpression::LiteralValue(Value::Principal(principal));
    }
    let digits = word.strip_prefix('u').unwrap_or(word);
    if !digits.is_empty() && digits.chars().all(|c| c.is_ascii_digit()) {
        return SymbolicExpression::LiteralValue(Value::Other);
    }
    if word.starts_with('<') && word.ends_with('>') && word.len() > 2 {
        return SymbolicExpression::TraitReference;
    }
    SymbolicExpression::Atom(word.to_string())
}

fn read_expr(tokens: &[String], at: &mut usize) -> SymbolicExpression {
    let token = tokens[*at].clone();
    *at += 1;
    match token.as_str() {
        "(" => {
            let mut list = Vec::new();
            while tokens[*at] != ")" {
                list.push(read_expr(tokens, at));
            }
            *at += 1;
            SymbolicExpression::List(list)
        }
        "{" => {
            let mut list = vec![SymbolicExpression::Atom("tuple".to_string())];
            while tokens[*at] != "}" {
                let key = tokens[*at].trim_end_matches(':').to_string();
                *at += 1;
                let value = read_expr(tokens, at);
                list.push(SymbolicExpression::List(vec![
                    SymbolicExpression::Atom(key),
                    value,
                ]));
            }
            *at += 1;
            SymbolicExpression::List(list)
        }
        word => word_expr(word),
    }
}

fn name_of(e: &SymbolicExpression) -> String {
    e.match_atom().expect("a name").clone()
}

fn top_level(e: SymbolicExpression) -> TopLevel {
    let list = match e {
        SymbolicExpression::List(list) => list,
        other => return TopLevel::Expression(other),
    };
    let head = match list.first().and_then(|e| e.match_atom()) {
        Some(head) => head.clone(),
        None => return TopLevel::Expression(SymbolicExpression::List(list)),
    };
    let mut rest = list;
    let function = |rest: &mut Vec<SymbolicExpression>| {
        let body = rest.remove(2);
        let signature = match rest.remove(1) {
            SymbolicExpression::List(signature) => signature,
            _ => Vec::new(),
        };
        (signature, body)
    };
    TopLevel::Definition(match head.as_str() {
        "define-constant" => {
            let value = rest.remove(2);
            DefineFunctionsParsed::Constant {
                name: name_of(&rest[1]),
                value,
            }
        }
        "define-private" => {
            let (signature, body) = function(&mut rest);
            DefineFunctionsParsed::PrivateFunction { signature, body }
        }
        "define-read-only" => {
            let (signature, body) = function(&mut rest);
            DefineFunctionsParsed::ReadOnlyFunction { signature, body }
        }
        "define-public" => {
            let (signature, body) = function(&mut rest);
            DefineFunctionsParsed::PublicFunction { signature, body }
        }
        "define-data-var" => {
            let initial = rest.remove(3);
            DefineFunctionsParsed::PersistedVariable {
                name: name_of(&rest[1]),
                initial,
            }
        }
        "define-map" => DefineFunctionsParsed::DataMap {
            name: name_of(&rest[1]),
        },
        "define-fungible-token" => {
            let name = name_of(&rest[1]);
            if rest.len() > 2 {
                DefineFunctionsParsed::BoundedFungibleToken {
                    name,
                    max_supply: rest.remove(2),
                }
            } else {
                DefineFunctionsParsed::UnboundedFungibleToken { name }
            }
        }
        "define-non-fungible-token" => DefineFunctionsParsed::NonFungibleToken {
            name: name_of(&rest[1]),
        },
        "define-trait" => DefineFunctionsParsed::Trait,
        _ => return TopLevel::Expression(SymbolicExpression::List(rest)),
    })
}

fn parse(source: &str, version: ClarityVersion) -> ContractAnalysis {
    let tokens = tokens(source);
    let mut expressions = Vec::new();
    let mut at = 0;
    while at < tokens.len() {
        expressions.push(top_level(read_expr(&tokens, &mut at)));
    }
    ContractAnalysis {
        contract_identifier: local("__transient"),
        clarity_version: version,
        natives: natives(version),
        expressions,
        function_effects: OrderedMap::new(),
    }
}

fn try_run(
    source: &str,
    version: ClarityVersion,
    store: &ContractStore,
) -> Result<ContractAnalysis, StaticCheckError> {
    let mut analysis = parse(source, version);
    let mut analyzer = EffectsAnalyzer::new(&analysis);
    analyzer.run(&mut analysis, store)?;
    Ok(analysis)
}

fn run_at(source: &str, version: ClarityVersion) -> ContractAnalysis {
    try_run(source, version, &OrderedMap::new()).unwrap()
}

fn run(source: &str) -> ContractAnalysis {
    run_at(source, ClarityVersion::Clarity4)
}

fn effects_of<'a>(analysis: &'a ContractAnalysis, name: &str) -> &'a FunctionEffects {
    analysis
        .function_effects
        .get(&name.to_string())
        .expect("missing function effects")
}

fn call(contract: ContractReference, function: &str) -> ContractCall {
    ContractCall {
        contract,
        function: function.to_string(),
        arg_principals: Vec::new(),
        caller: Some(local("__transient")),
    }
}

fn stx(principal: PrincipalReference) -> EffectTarget {
    EffectTarget::AssetOwnership(AssetOwnershipAccess {
        asset: AssetId::stx(),
        principal,
    })
}

fn token(name: &str, kind: TokenKind, principal: PrincipalReference) -> EffectTarget {
    EffectTarget::AssetOwnership(AssetOwnershipAccess {
        asset: AssetId::token(local("__transient"), name.to_string(), kind),
        principal,
    })
}

fn var(contract: &QualifiedContractIdentifier, name: &str) -> EffectTarget {
    EffectTarget::Contract(ContractStorageAccess {
        contract: ContractReference::Literal(contract.clone()),
        location: Some(StorageLocation::DataVar(name.to_string())),
    })
}

fn map(contract: &QualifiedContractIdentifier, name: &str) -> EffectTarget {
    EffectTarget::Contract(ContractStorageAccess {
        contract: ContractReference::Literal(contract.clone()),
        location: Some(StorageLocation::DataMap(name.to_string())),
    })
}

#[test]
fn test_effects_contract_call_argument_reference() {
    let snippet = "(define-trait compute-trait ((compute () (response uint uint))))
(define-public (do-it (computer <compute-trait>))
  (contract-call? computer compute)
)";

    let analysis = run(snippet);
    let effects = effects_of(&analysis, "do-it");
    let expected = call(ContractReference::Argument(0), "compute");
    assert!(effects.contract_calls.contains(&expected));
}

#[test]
fn test_effects_contract_call_any_reference() {
    let snippet = "(define-trait compute-trait ((compute () (response uint uint))))
(define-public (do-it (computer <compute-trait>))
  (let ((alias computer))
    (contract-call? alias compute))
)";

    let analysis = run(snippet);
    let effects = effects_of(&analysis, "do-it");
    let expected = call(ContractReference::Any, "compute");
    assert!(effects.contract_calls.contains(&expected));
}

#[test]
fn test_effects_map_and_var_access() {
    let snippet = "(define-data-var counter uint u0)
(define-map balances { owner: principal } { amount: uint })

(define-read-only (read-effects (owner principal))
  (begin
    (var-get counter)
    (map-get? balances { owner: owner })
    u1))

(define-public (write-effects (owner principal))
  (begin
    (var-set counter u1)
    (map-set balances { owner: owner } { amount: u1 })
    (map-insert balances { owner: owner } { amount: u2 })
    (map-delete balances { owner: owner })
    (ok true)))
";

    let analysis = run(snippet);
    let contract = analysis.contract_identifier.clone();
    let read_effects = effects_of(&analysis, "read-effects");
    assert!(read_effects.reads.contains(&var(&contract, "counter")));
    assert!(read_effects.reads.contains(&map(&contract, "balances")));
    assert!(read_effects.writes.is_empty());

    let write_effects = effects_of(&analysis, "write-effects");
    assert!(write_effects.writes.contains(&var(&contract, "counter")));
    assert!(write_effects.writes.contains(&map(&contract, "balances")));
}

#[test]
fn test_effects_deploy_top_level_expression() {
    let snippet = "(define-data-var counter uint u0)
(var-set counter u1)
";

    let analysis = run(snippet);
    let deploy_effects = EffectsAnalyzer::compute_deploy_effects(&analysis)
        .expect("deploy effects should analyze top-level expressions");
    let expected = var(&analysis.contract_identifier, "counter");
    assert!(deploy_effects.writes.contains(&expected));
}

#[test]
fn test_effects_deploy_definitions_are_writes() {
    let snippet = "(define-data-var counter uint u0)
(define-map balances { owner: principal } { amount: uint })
";

    let analysis = run(snippet);
    let deploy_effects = EffectsAnalyzer::compute_deploy_effects(&analysis)
        .expect("deploy effects should include definition writes");
    let contract = analysis.contract_identifier.clone();
    assert!(deploy_effects.writes.contains(&var(&contract, "counter")));
    assert!(deploy_effects.writes.contains(&map(&contract, "balances")));
}

#[test]
fn test_effects_chain_reads() {
    let snippet_v2 = "(define-read-only (chain-reads)
  (begin
    (get-block-info? time u1)
    (get-burn-block-info? header-hash u1)
    u1))
";

    let analysis_v2 = run_at(snippet_v2, ClarityVersion::Clarity2);
    let effects_v2 = effects_of(&analysis_v2, "chain-reads");
    assert!(effects_v2
        .reads
        .contains(&EffectTarget::ChainState(ChainStateRead::BlockInfo)));
    assert!(effects_v2
        .reads
        .contains(&EffectTarget::ChainState(ChainStateRead::BurnBlockInfo)));

    let snippet_v3 = "(define-read-only (chain-reads)
  (begin
    (get-stacks-block-info? time u1)
    (get-tenure-info? time u1)
    u1))
";

    let analysis_v3 = run_at(snippet_v3, ClarityVersion::Clarity3);
    let effects_v3 = effects_of(&analysis_v3, "chain-reads");
    assert!(effects_v3
        .reads
        .contains(&EffectTarget::ChainState(ChainStateRead::StacksBlockInfo)));
    assert!(effects_v3
        .reads
        .contains(&EffectTarget::ChainState(ChainStateRead::TenureInfo)));
}

#[test]
fn test_effects_assets_stx() {
    let snippet = "(define-read-only (stx-reads)
  (begin
    (stx-get-balance tx-sender)
    (stx-account tx-sender)
    u1))

(define-public (stx-writes)
  (begin
    (unwrap! (stx-transfer? u1 tx-sender contract-caller) (err u0))
    (unwrap! (stx-burn? u1 tx-sender) (err u0))
    (ok true)))
";

    let analysis = run(snippet);
    let expected = stx(PrincipalReference::Any);
    let reads = effects_of(&analysis, "stx-reads");
    assert!(reads.reads.contains(&expected));

    let writes = effects_of(&analysis, "stx-writes");
    assert!(writes.reads.contains(&expected));
    assert!(writes.writes.contains(&expected));
}

#[test]
fn test_effects_principal_binding_resolution() {
    let snippet = "(define-read-only (read-balance (p principal))
  (let ((q p))
    (stx-get-balance q)))
";

    let analysis = run(snippet);
    let expected = stx(PrincipalReference::Argument(0));
    let reads = effects_of(&analysis, "read-balance");
    assert!(reads.reads.contains(&expected));
}

#[test]
fn test_effects_principal_constant_resolution() {
    let snippet = "(define-constant owner .callee)
(define-read-only (read-balance)
  (stx-get-balance owner))
";

    let analysis = run(snippet);
    let contract_id = local("callee");
    let expected = stx(PrincipalReference::Literal(PrincipalData::Contract(
        contract_id,
    )));
    let reads = effects_of(&analysis, "read-balance");
    assert!(reads.reads.contains(&expected));
}

#[test]
fn test_effects_assets_ft_nft() {
    let snippet = "(define-fungible-token token)
(define-non-fungible-token collectible uint)

(define-read-only (token-reads)
  (begin
    (ft-get-balance token tx-sender)
    (ft-get-supply token)
    (nft-get-owner? collectible u1)
    u1))

(define-public (token-writes)
  (begin
    (unwrap! (ft-transfer? token u1 tx-sender contract-caller) (err u0))
    (unwrap! (ft-mint? token u1 tx-sender) (err u0))
    (unwrap! (ft-burn? token u1 tx-sender) (err u0))
    (unwrap! (nft-transfer? collectible u1 tx-sender contract-caller) (err u0))
    (unwrap! (nft-mint? collectible u1 tx-sender) (err u0))
    (unwrap! (nft-burn? collectible u1 tx-sender) (err u0))
    (ok true)))
";

    let analysis = run(snippet);
    let ft_access = token("token", TokenKind::Fungible, PrincipalReference::Any);
    let nft_access = token("collectible", TokenKind::NonFungible, PrincipalReference::Any);

    let reads = effects_of(&analysis, "token-reads");
    assert!(reads.reads.contains(&ft_access));
    assert!(reads.reads.contains(&nft_access));

    let writes = effects_of(&analysis, "token-writes");
    assert!(writes.reads.contains(&ft_access));
    assert!(writes.reads.contains(&nft_access));
    assert!(writes.writes.contains(&ft_access));
    assert!(writes.writes.contains(&nft_access));
}

#[test]
fn test_effects_call_propagation_and_purity() {
    let snippet = "(define-data-var counter uint u0)

(define-private (inner)
  (begin
    (var-set counter u1)
    u1))

(define-read-only (pure)
  (+ u1 u2))

(define-public (outer)
  (begin
    (inner)
    (ok true)))
";

    let analysis = run(snippet);
    let write_effect = var(&analysis.contract_identifier, "counter");
    let outer = effects_of(&analysis, "outer");
    assert!(outer.writes.contains(&write_effect));

    let pure = effects_of(&analysis, "pure");
    assert_eq!(pure.purity, Purity::Pure);
}

#[test]
fn test_effects_contract_call_propagation() {
    let snippet = "(define-trait compute-trait ((compute () (response uint uint))))

(define-private (inner (computer <compute-trait>))
  (contract-call? computer compute))

(define-public (outer (computer <compute-trait>))
  (begin
    (unwrap! (inner computer) (err u0))
    (ok true)))
";

    let analysis = run(snippet);
    let expected = call(ContractReference::Argument(0), "compute");
    let outer = effects_of(&analysis, "outer");
    assert!(outer.contract_calls.contains(&expected));
}

#[test]
fn test_effects_contract_call_resolution() {
    let contract_id = local("callee");
    let mut callee_effects = FunctionEffects::default();
    callee_effects
        .reads
        .insert(EffectTarget::ChainState(ChainStateRead::StacksBlockInfo));

    let mut callee_functions: Functions = OrderedMap::new();
    callee_functions.insert("read".into(), callee_effects);
    let mut contracts: Contracts = OrderedMap::new();
    contracts.insert(contract_id.clone(), callee_functions);

    let mut caller_effects = FunctionEffects::default();
    caller_effects.contract_calls.insert(ContractCall {
        contract: ContractReference::Literal(contract_id),
        function: "read".into(),
        arg_principals: Vec::new(),
        caller: None,
    });

    let resolved = caller_effects.resolve_contract_calls(&[], &contracts);
    assert!(resolved
        .reads
        .contains(&EffectTarget::ChainState(ChainStateRead::StacksBlockInfo)));
    assert!(resolved.contract_calls.is_empty());
}

#[test]
fn test_effects_contract_call_argument_resolution() {
    let contract_id = local("callee");
    let mut callee_effects = FunctionEffects::default();
    callee_effects
        .reads
        .insert(EffectTarget::ChainState(ChainStateRead::StacksBlockInfo));

    let mut callee_functions: Functions = OrderedMap::new();
    callee_functions.insert("read".into(), callee_effects);
    let mut contracts: Contracts = OrderedMap::new();
    contracts.insert(contract_id.clone(), callee_functions);

    let mut caller_effects = FunctionEffects::default();
    caller_effects.contract_calls.insert(ContractCall {
        contract: ContractReference::Argument(0),
        function: "read".into(),
        arg_principals: Vec::new(),
        caller: None,
    });

    let resolved = caller_effects.resolve_contract_calls(&[Some(contract_id)], &contracts);
    assert!(resolved
        .reads
        .contains(&EffectTarget::ChainState(ChainStateRead::StacksBlockInfo)));
    assert!(resolved.contract_calls.is_empty());
}

#[test]
fn native_balances_are_attributed_to_well_known_principals() {
    let analysis = run("(define-read-only (stx-reads)
  (begin
    (stx-get-balance tx-sender)
    (stx-account contract-caller)
    u1))

(define-public (stx-writes)
  (begin
    (unwrap! (stx-transfer? u1 tx-sender contract-caller) (err u0))
    (unwrap! (stx-burn? u1 current-contract) (err u0))
    (ok true)))
");
    let reads = effects_of(&analysis, "stx-reads");
    assert_eq!(reads.reads.len(), 3);
    assert!(reads.reads.contains(&stx(PrincipalReference::TxSender)));
    assert!(reads.reads.contains(&stx(PrincipalReference::ContractCaller)));
    assert!(reads.reads.contains(&stx(PrincipalReference::Any)));
    assert!(reads.writes.is_empty());

    let writes = effects_of(&analysis, "stx-writes");
    assert_eq!(writes.reads, writes.writes);
    assert_eq!(writes.writes.len(), 4);
    assert!(writes.writes.contains(&stx(PrincipalReference::TxSender)));
    assert!(writes.writes.contains(&stx(PrincipalReference::ContractCaller)));
    assert!(writes.writes.contains(&stx(PrincipalReference::Any)));
    assert!(writes.writes.contains(&stx(PrincipalReference::CurrentContract)));
}

#[test]
fn tokens_are_attributed_to_their_owners() {
    let analysis = run("(define-fungible-token token)
(define-non-fungible-token collectible uint)

(define-read-only (token-reads)
  (begin
    (ft-get-balance token tx-sender)
    (ft-get-supply token)
    (nft-get-owner? collectible u1)
    u1))

(define-public (token-writes)
  (begin
    (unwrap! (ft-transfer? token u1 tx-sender contract-caller) (err u0))
    (unwrap! (nft-mint? collectible u1 tx-sender) (err u0))
    (unwrap! (nft-burn? collectible u1 contract-caller) (err u0))
    (ok true)))
");
    let any = PrincipalReference::Any;
    let ft = TokenKind::Fungible;
    let nft = TokenKind::NonFungible;
    let reads = effects_of(&analysis, "token-reads");
    assert!(reads.reads.contains(&token("token", ft.clone(), any.clone())));
    assert!(reads.reads.contains(&token(
        "token",
        ft.clone(),
        PrincipalReference::TxSender
    )));
    assert!(reads.reads.contains(&token("collectible", nft.clone(), any)));

    let writes = effects_of(&analysis, "token-writes");
    for principal in [PrincipalReference::TxSender, PrincipalReference::ContractCaller] {
        let moved = token("token", ft.clone(), principal);
        assert!(writes.reads.contains(&moved));
        assert!(writes.writes.contains(&moved));
    }
    let minted = token("collectible", nft.clone(), PrincipalReference::TxSender);
    assert!(writes.writes.contains(&minted));
    assert!(!writes.reads.contains(&minted));
    let burned = token("collectible", nft, PrincipalReference::ContractCaller);
    assert!(writes.writes.contains(&burned));
    assert!(writes.reads.contains(&burned));
}

#[test]
fn only_the_sender_and_the_caller_may_be_anyone() {
    let analysis = run("(define-fungible-token token)

(define-public (exact (p principal))
  (begin
    (stx-get-balance p)
    (unwrap! (stx-transfer? u1 p 'SP000) (err u0))
    (unwrap! (ft-transfer? token u1 current-contract p) (err u0))
    (unwrap! (ft-burn? token u1 p) (err u0))
    (ok true)))

(define-public (minting)
  (ft-mint? token u1 tx-sender))

(define-public (burning)
  (ft-burn? token u1 contract-caller))
");
    let argument = PrincipalReference::Argument(0);
    let literal = PrincipalReference::Literal(PrincipalData::Standard(account("SP000")));
    let exact = effects_of(&analysis, "exact");
    assert_eq!(exact.reads, exact.writes);
    assert_eq!(exact.reads.len(), 4);
    assert!(exact.reads.contains(&stx(argument.clone())));
    assert!(exact.reads.contains(&stx(literal)));
    assert!(exact.reads.contains(&token("token", TokenKind::Fungible, argument)));
    assert!(exact.reads.contains(&token(
        "token",
        TokenKind::Fungible,
        PrincipalReference::CurrentContract
    )));

    let minting = effects_of(&analysis, "minting");
    assert!(minting.reads.is_empty());
    assert_eq!(minting.writes.len(), 1);
    assert!(minting.writes.contains(&token(
        "token",
        TokenKind::Fungible,
        PrincipalReference::TxSender
    )));

    let burning = effects_of(&analysis, "burning");
    assert_eq!(burning.reads, burning.writes);
    assert_eq!(burning.writes.len(), 2);
    for principal in [PrincipalReference::ContractCaller, PrincipalReference::Any] {
        assert!(burning.writes.contains(&token("token", TokenKind::Fungible, principal)));
    }
}

#[test]
fn the_contract_itself_is_recognized() {
    let analysis = run("(define-public (refund)
  (stx-transfer? u1 (as-contract tx-sender) 'SP000))
");
    let effects = effects_of(&analysis, "refund");
    assert!(effects
        .writes
        .contains(&stx(PrincipalReference::CurrentContract)));
    assert!(effects
        .writes
        .contains(&stx(PrincipalReference::Literal(PrincipalData::Standard(account("SP000"))))));
}

#[test]
fn a_binding_hides_a_parameter_only_inside_its_let() {
    let analysis = run("(define-read-only (f (p principal))
  (begin
    (let ((p tx-sender)) (stx-get-balance p))
    (stx-account p)))
");
    let effects = effects_of(&analysis, "f");
    assert_eq!(effects.reads.len(), 3);
    assert!(effects.reads.contains(&stx(PrincipalReference::TxSender)));
    assert!(effects.reads.contains(&stx(PrincipalReference::Any)));
    assert!(effects.reads.contains(&stx(PrincipalReference::Argument(0))));
}

#[test]
fn bindings_see_those_before_them() {
    let analysis = run("(define-read-only (f)
  (let ((a 'SP1) (b a)) (stx-get-balance b)))
");
    let effects = effects_of(&analysis, "f");
    assert!(effects
        .reads
        .contains(&stx(PrincipalReference::Literal(PrincipalData::Standard(account("SP1"))))));
}

#[test]
fn effects_travel_along_cycles_of_calls() {
    let analysis = run("(define-data-var a uint u0)
(define-data-var b uint u0)
(define-private (f) (begin (var-get a) (g)))
(define-private (g) (begin (var-set b u1) (f)))
(define-private (h) (f))
(define-private (alone) u1)
");
    let id = analysis.contract_identifier.clone();
    for name in ["f", "g", "h"] {
        let effects = effects_of(&analysis, name);
        assert!(effects.reads.contains(&var(&id, "a")), "{name}");
        assert!(effects.writes.contains(&var(&id, "b")), "{name}");
        assert_eq!(effects.purity, Purity::Impure);
    }
    let alone = effects_of(&analysis, "alone");
    assert!(alone.reads.is_empty() && alone.writes.is_empty());
    assert_eq!(alone.purity, Purity::Pure);
}

#[test]
fn calls_of_known_contracts_are_replaced() {
    let mut callee = FunctionEffects::default();
    callee.writes.insert(stx(PrincipalReference::Argument(0)));
    callee.writes.insert(stx(PrincipalReference::ContractCaller));
    callee.writes.insert(stx(PrincipalReference::CurrentContract));
    callee.writes.insert(stx(PrincipalReference::TxSender));
    let mut functions: Functions = OrderedMap::new();
    functions.insert("pay".to_string(), callee);
    let mut store: ContractStore = OrderedMap::new();
    store.insert(local("bank"), Lookup::Found(functions));

    let source = "(define-public (f (to principal)) (contract-call? .bank pay to))";
    let analysis = try_run(source, ClarityVersion::Clarity4, &store).unwrap();
    let effects = effects_of(&analysis, "f");
    assert!(effects.contract_calls.is_empty());
    assert_eq!(effects.writes.len(), 4);
    let contract = |name: &str| {
        stx(PrincipalReference::Literal(PrincipalData::Contract(local(
            name,
        ))))
    };
    assert!(effects.writes.contains(&stx(PrincipalReference::Argument(0))));
    assert!(effects.writes.contains(&stx(PrincipalReference::TxSender)));
    assert!(effects.writes.contains(&contract("__transient")));
    assert!(effects.writes.contains(&contract("bank")));
}

#[test]
fn an_unread_contract_is_asked_for() {
    let source = "(define-public (f) (contract-call? .bank pay))";
    let error = try_run(source, ClarityVersion::Clarity4, &OrderedMap::new()).unwrap_err();
    assert_eq!(error, StaticCheckError::Load(LoadStop::Unread(local("bank"))));
}

#[test]
fn a_contract_that_cannot_be_read_stops_the_analysis() {
    let mut store: ContractStore = OrderedMap::new();
    store.insert(local("bank"), Lookup::Failed("no luck".to_string()));
    let source = "(define-public (f) (contract-call? .bank pay))";
    let error = try_run(source, ClarityVersion::Clarity4, &store).unwrap_err();
    assert_eq!(
        error,
        StaticCheckError::Load(LoadStop::Failed("no luck".to_string()))
    );
}

#[test]
fn a_call_of_an_absent_contract_stays() {
    let mut store: ContractStore = OrderedMap::new();
    store.insert(local("bank"), Lookup::Absent);
    let source = "(define-public (f) (contract-call? .bank pay))";
    let analysis = try_run(source, ClarityVersion::Clarity4, &store).unwrap();
    let effects = effects_of(&analysis, "f");
    assert!(effects
        .contract_calls
        .contains(&call(ContractReference::Literal(local("bank")), "pay")));
    assert_eq!(effects.purity, Purity::Impure);
}

#[test]
fn a_signature_without_a_name_is_refused() {
    let mut analysis = parse("(define-private (f) u1)", ClarityVersion::Clarity4);
    analysis.expressions.push(TopLevel::Definition(
        DefineFunctionsParsed::PrivateFunction {
            signature: Vec::new(),
            body: SymbolicExpression::Field,
        },
    ));
    let mut analyzer = EffectsAnalyzer::new(&analysis);
    let result = analyzer.run(&mut analysis, &OrderedMap::new());
    assert_eq!(result, Err(StaticCheckError::DefineFunctionBadSignature));
    assert!(analysis.function_effects.is_empty());
    assert!(analyzer.known_functions.contains(&"f".to_string()));
}

#[test]
fn an_invalid_definition_is_refused() {
    let mut analysis = parse("(define-private (f) u1)", ClarityVersion::Clarity4);
    analysis
        .expressions
        .push(TopLevel::Invalid("too few arguments".to_string()));
    let expected = StaticCheckError::InvalidDefinition("too few arguments".to_string());
    let deployed = EffectsAnalyzer::compute_deploy_effects(&analysis);
    assert_eq!(deployed.unwrap_err(), expected);
    let mut analyzer = EffectsAnalyzer::new(&analysis);
    let result = analyzer.run(&mut analysis, &OrderedMap::new());
    assert_eq!(result, Err(expected));
}

#[test]
fn deployment_has_the_effects_of_called_functions() {
    let analysis = run("(define-data-var a uint u0)
(define-fungible-token coin (supply))
(define-private (supply) (begin (var-set a u1) u5))
(define-private (unused) (stx-get-balance tx-sender))
");
    let effects = EffectsAnalyzer::compute_deploy_effects(&analysis).unwrap();
    assert!(effects
        .writes
        .contains(&var(&analysis.contract_identifier, "a")));
    assert!(effects.reads.is_empty());
    assert_eq!(effects.purity, Purity::Impure);
}

#[test]
fn deploying_functions_alone_is_pure() {
    let analysis = run("(define-private (f) (stx-get-balance tx-sender))");
    let effects = EffectsAnalyzer::compute_deploy_effects(&analysis).unwrap();
    assert_eq!(effects.purity, Purity::Pure);
    assert!(effects.reads.is_empty());
}

#[test]
fn parameters_are_found_by_name() {
    let parameter = |name: &str| {
        SymbolicExpression::List(vec![SymbolicExpression::Atom(name.to_string())])
    };
    let signature = vec![
        SymbolicExpression::Atom("f".to_string()),
        parameter("a"),
        SymbolicExpression::Field,
        parameter("b"),
        parameter("a"),
    ];
    let indices = EffectsAnalyzer::extract_param_indices(&signature);
    assert_eq!(indices.len(), 2);
    assert_eq!(indices.get(&"a".to_string()), Some(&3));
    assert_eq!(indices.get(&"b".to_string()), Some(&2));
}

#[test]
fn a_list_that_is_no_call_is_walked() {
    let analysis = run("(define-data-var a uint u0)
(define-private (f) ((var-get a) (unknown (var-set a u1))))
");
    let id = analysis.contract_identifier.clone();
    let effects = effects_of(&analysis, "f");
    assert!(effects.reads.contains(&var(&id, "a")));
    assert!(effects.writes.contains(&var(&id, "a")));
}
