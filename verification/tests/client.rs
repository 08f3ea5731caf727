use eth_client::abi::{AbiType, AbiValue, EncodingError, WordType, WordValue};
use eth_client::abi_decode::{decode_values, DecodingError};
use eth_client::client::{
    advance, deployment, Client, ContractHandle, DeploymentError, Event, PollOutcome,
    PrepareError, ReceiptWait, Stage, WaitError,
};
use eth_client::interface::{selector, ContractInterface, Function};
use eth_client::resolver::{Answers, Field, Queries, ResolutionError, Resolver};
use eth_client::signer::Signer;
use eth_client::types::{Address, TransactionReceipt, TransportError, UnsignedTransaction};
use eth_client::word::U256;

fn greeter() -> ContractInterface {
    let mut iface = ContractInterface::new();
    iface.add(Function::new("greet", vec![], vec![AbiType::Str])).unwrap();
    iface.add(Function::new("setGreeting", vec![AbiType::Str], vec![])).unwrap();
    iface
}

fn receipt(block: Option<u64>, contract: Option<Address>, success: bool) -> TransactionReceipt {
    TransactionReceipt {
        transaction_hash: [3; 32],
        block_number: block,
        contract_address: contract,
        success,
        logs: vec![],
    }
}

#[test]
fn stages_follow_one_another() {
    assert_eq!(advance(Stage::Prepared, Event::Signed), Some(Stage::Signed));
    assert_eq!(advance(Stage::Signed, Event::Submitted), Some(Stage::Submitted));
    assert_eq!(advance(Stage::Submitted, Event::Mined { success: true }), Some(Stage::MinedSuccess));
    assert_eq!(advance(Stage::Submitted, Event::Mined { success: false }), Some(Stage::MinedFailure));
    assert_eq!(advance(Stage::Submitted, Event::TimedOut), Some(Stage::TimedOut));
}

#[test]
fn no_other_step_is_taken() {
    let stages = [
        Stage::Prepared,
        Stage::Signed,
        Stage::Submitted,
        Stage::MinedSuccess,
        Stage::MinedFailure,
        Stage::TimedOut,
    ];
    let events =
        [Event::Signed, Event::Submitted, Event::Mined { success: true }, Event::Mined { success: false }, Event::TimedOut];
    let mut steps = 0;
    for s in stages {
        for e in events {
            if advance(s, e).is_some() {
                steps += 1;
            }
        }
    }
    assert_eq!(steps, 5);
    assert_eq!(advance(Stage::Prepared, Event::Submitted), None);
    assert_eq!(advance(Stage::Signed, Event::Signed), None);
    assert_eq!(advance(Stage::MinedSuccess, Event::TimedOut), None);
    assert_eq!(advance(Stage::TimedOut, Event::Mined { success: true }), None);
}

#[test]
fn a_mined_receipt_ends_the_wait() {
    let wait = ReceiptWait { hash: [3; 32], poll_interval: 10_000, timeout: 60_000 };
    let mined = receipt(Some(17), None, false);
    assert_eq!(wait.on_answer(0, Ok(Some(mined.clone()))), PollOutcome::Mined(mined.clone()));
    assert_eq!(wait.on_answer(70_000, Ok(Some(mined.clone()))), PollOutcome::Mined(mined));
}

#[test]
fn a_receipt_without_block_is_no_receipt_yet() {
    let wait = ReceiptWait { hash: [3; 32], poll_interval: 10_000, timeout: 60_000 };
    let early = receipt(None, None, true);
    assert_eq!(wait.on_answer(0, Ok(Some(early.clone()))), PollOutcome::Retry { sleep: 10_000 });
    assert_eq!(wait.on_answer(55_000, Ok(None)), PollOutcome::Retry { sleep: 5_000 });
    assert_eq!(wait.on_answer(59_999, Ok(None)), PollOutcome::Retry { sleep: 1 });
    assert_eq!(wait.on_answer(60_000, Ok(Some(early))), PollOutcome::Failed(WaitError::Timeout));
    assert_eq!(wait.on_answer(u64::MAX, Ok(None)), PollOutcome::Failed(WaitError::Timeout));
}

#[test]
fn a_transport_failure_ends_the_wait() {
    let wait = ReceiptWait { hash: [3; 32], poll_interval: 10_000, timeout: 60_000 };
    let cause = TransportError::Rpc { code: -32603, message: "internal error".to_string() };
    assert_eq!(
        wait.on_answer(5, Err(cause.clone())),
        PollOutcome::Failed(WaitError::Transport(cause))
    );
}

#[test]
fn a_wait_without_receipt_times_out() {
    for (interval, timeout, polls) in [(10u64, 35u64, 5u32), (7, 7, 2), (100, 30, 2), (1, 0, 1), (3, 9, 4)] {
        let wait = ReceiptWait { hash: [3; 32], poll_interval: interval, timeout };
        let mut clock = 0u64;
        let mut made = 0u32;
        loop {
            made += 1;
            assert!(made <= polls);
            match wait.on_answer(clock, Ok(None)) {
                PollOutcome::Retry { sleep } => {
                    assert!(sleep > 0 && sleep <= interval);
                    clock += sleep;
                    assert!(clock <= timeout);
                }
                PollOutcome::Failed(WaitError::Timeout) => break,
                other => panic!("{:?}", other),
            }
        }
        assert_eq!(made, polls);
        assert_eq!(clock, timeout);
    }
}

#[test]
fn the_receipt_names_the_contract() {
    let at = Address { bytes: [0xab; 20] };
    let handle = ContractHandle::deployed(&receipt(Some(1), Some(at), true), greeter()).unwrap();
    assert_eq!(handle.address(), at);
    assert_eq!(handle.interface().len(), 2);
    assert_eq!(
        ContractHandle::deployed(&receipt(Some(1), None, true), greeter()).err(),
        Some(DeploymentError::MissingContractAddress)
    );
}

#[test]
fn a_deployment_carries_code_and_arguments() {
    let code = vec![0x60, 0x80, 0x60, 0x40, 0x52];
    let tx = deployment(&code, &[AbiType::Str], &[AbiValue::Str("Hello world!".to_string())]).unwrap();
    assert_eq!(tx.to, None);
    assert_eq!(tx.value, U256::zero());
    assert_eq!((tx.from, tx.nonce, tx.gas_limit, tx.gas, tx.chain_id), (None, None, None, None, None));
    assert_eq!(&tx.data[..5], &code[..]);
    assert_eq!(tx.data.len(), 5 + 96);
    assert_eq!(
        decode_values(&[AbiType::Str], &tx.data[5..]),
        Ok(vec![AbiValue::Str("Hello world!".to_string())])
    );
    assert_eq!(deployment(&code, &[], &[]).unwrap().data, code);
    assert_eq!(deployment(&code, &[AbiType::Str], &[]).err(), Some(EncodingError::ArityMismatch));
    assert_eq!(
        deployment(&code, &[AbiType::Str], &[AbiValue::Word(WordValue::Bool(true))]).err(),
        Some(EncodingError::TypeMismatch)
    );
}

#[test]
fn calls_and_sends_go_to_the_contract() {
    let at = Address { bytes: [0xab; 20] };
    let handle = ContractHandle::attach(at, greeter());
    let call = handle.call("greet", &[]).unwrap();
    assert_eq!(call.to, at);
    assert_eq!(call.data, selector("greet", &[]).to_vec());
    let tx = handle.send("setGreeting", &[AbiValue::Str("X".to_string())]).unwrap();
    assert_eq!(tx.to, Some(at));
    assert_eq!(tx.value, U256::zero());
    assert_eq!(tx.nonce, None);
    assert_eq!(&tx.data[..4], &selector("setGreeting", &[AbiType::Str]));
    assert_eq!(handle.call("missing", &[]).err(), Some(EncodingError::UnknownFunction));
    assert_eq!(handle.send("greet", &[AbiValue::Bytes(vec![])]).err(), Some(EncodingError::ArityMismatch));
    assert_eq!(handle.returned("missing", &[]).err(), Some(DecodingError::UnknownFunction));
    let word = [AbiType::Word(WordType::Uint(256))];
    let mut storage = ContractInterface::new();
    storage.add(Function::new("get", vec![], word.to_vec())).unwrap();
    let simple = ContractHandle::attach(at, storage);
    let mut answer = vec![0u8; 32];
    answer[31] = 42;
    assert_eq!(
        simple.returned("get", &answer),
        Ok(vec![AbiValue::Word(WordValue::Uint(U256::from_u64(42)))])
    );
}

/// A node that runs one greeter contract in memory.
struct Node {
    count: u64,
    greeting: Option<String>,
    mined: Vec<(Vec<u8>, TransactionReceipt)>,
}

impl Node {
    fn submit(&mut self, raw: &[u8], hash: [u8; 32], tx: &UnsignedTransaction) -> [u8; 32] {
        assert_eq!(tx.nonce, Some(self.count));
        self.count += 1;
        let contract = Address { bytes: [0xc0; 20] };
        let created = if tx.to.is_none() {
            let args = decode_values(&[AbiType::Str], &tx.data[4..]).unwrap();
            if let AbiValue::Str(s) = &args[0] {
                self.greeting = Some(s.clone());
            }
            Some(contract)
        } else {
            assert_eq!(tx.to, Some(contract));
            assert_eq!(&tx.data[..4], &selector("setGreeting", &[AbiType::Str]));
            let args = decode_values(&[AbiType::Str], &tx.data[4..]).unwrap();
            if let AbiValue::Str(s) = &args[0] {
                self.greeting = Some(s.clone());
            }
            None
        };
        let receipt = TransactionReceipt {
            transaction_hash: hash,
            block_number: Some(self.count),
            contract_address: created,
            success: true,
            logs: vec![],
        };
        self.mined.push((raw.to_vec(), receipt));
        hash
    }

    fn execute(&self, to: Address, data: &[u8]) -> Vec<u8> {
        assert_eq!(to, Address { bytes: [0xc0; 20] });
        assert_eq!(data, &selector("greet", &[]));
        let mut out = vec![0u8; 64];
        let text = self.greeting.clone().unwrap();
        out[31] = 0x20;
        out[63] = text.len() as u8;
        out.extend_from_slice(text.as_bytes());
        out.resize(64 + 32, 0);
        out
    }

    fn receipt(&self, hash: [u8; 32]) -> Option<TransactionReceipt> {
        self.mined.iter().find(|(_, r)| r.transaction_hash == hash).map(|(_, r)| r.clone())
    }
}

fn run(node: &mut Node, signer: &Signer, resolver: &mut Resolver, tx: UnsignedTransaction) -> TransactionReceipt {
    let mut stage = Stage::Prepared;
    let answers = Answers {
        nonce: Some(Ok(node.count)),
        gas_limit: Some(Ok(100_000)),
        gas_price: Some(Ok(1_000_000_000)),
    };
    let full = resolver.resolve(&tx, answers).unwrap();
    let signed = signer.sign(&full).unwrap();
    stage = advance(stage, Event::Signed).unwrap();
    let hash = node.submit(&signed.raw, signed.hash, &signed.tx);
    stage = advance(stage, Event::Submitted).unwrap();
    let wait = ReceiptWait { hash, poll_interval: 10, timeout: 100 };
    match wait.on_answer(0, Ok(node.receipt(hash))) {
        PollOutcome::Mined(r) => {
            stage = advance(stage, Event::Mined { success: r.success }).unwrap();
            assert_eq!(stage, Stage::MinedSuccess);
            r
        }
        other => panic!("{:?}", other),
    }
}

#[test]
fn greeter_from_deployment_to_new_greeting() {
    let signer = Signer::new([0x46; 32]).unwrap();
    let mut resolver = Resolver::new(signer.address(), 296);
    let mut node = Node { count: 0, greeting: None, mined: vec![] };
    let code = vec![0xfe, 0xfe, 0xfe, 0xfe];
    let create =
        deployment(&code, &[AbiType::Str], &[AbiValue::Str("Hello world!".to_string())]).unwrap();
    let receipt = run(&mut node, &signer, &mut resolver, create);
    let greeter = ContractHandle::deployed(&receipt, greeter()).unwrap();
    assert_eq!(greeter.address(), Address { bytes: [0xc0; 20] });

    let call = greeter.call("greet", &[]).unwrap();
    let before = greeter.returned("greet", &node.execute(call.to, &call.data)).unwrap();
    assert_eq!(before, vec![AbiValue::Str("Hello world!".to_string())]);
    assert_eq!(node.count, 1);
    assert_eq!(resolver.next_nonce(), 1);

    let change = greeter.send("setGreeting", &[AbiValue::Str("X".to_string())]).unwrap();
    run(&mut node, &signer, &mut resolver, change);
    let call = greeter.call("greet", &[]).unwrap();
    let after = greeter.returned("greet", &node.execute(call.to, &call.data)).unwrap();
    assert_eq!(after, vec![AbiValue::Str("X".to_string())]);
    assert_eq!(node.count, 2);
}

#[test]
fn a_client_resolves_then_signs() {
    let signer = Signer::new([0x46; 32]).unwrap();
    let account = signer.address();
    let mut client = Client::new(signer, 1);
    assert_eq!(client.address(), account);
    assert_eq!(client.chain_id(), 1);
    assert_eq!(client.next_nonce(), 0);
    let tx = UnsignedTransaction::new(
        Some(Address { bytes: [0x35; 20] }),
        U256::from_u128(1_000_000_000_000_000_000),
        vec![],
    );
    assert_eq!(client.needs(&tx), Queries { nonce: true, gas_limit: true, gas_price: true });
    let answers =
        Answers { nonce: Some(Ok(9)), gas_limit: Some(Ok(21000)), gas_price: Some(Ok(20_000_000_000)) };
    let signed = client.prepare(&tx, answers.clone()).unwrap();
    assert_eq!(signed.tx.from, Some(account));
    assert_eq!(signed.tx.nonce, Some(9));
    assert_eq!(signed.raw.len(), 110);
    assert_eq!(signed.raw[..3], [0xf8, 0x6c, 0x09]);
    assert_eq!(client.next_nonce(), 10);
    let again = client.prepare(&tx, answers).unwrap();
    assert_eq!(again.tx.nonce, Some(10));
    assert_ne!(again.raw, signed.raw);

    let silent = Answers { nonce: Some(Ok(9)), gas_limit: None, gas_price: Some(Ok(1)) };
    assert_eq!(
        client.prepare(&tx, silent),
        Err(PrepareError::Resolution(ResolutionError::Unanswered(Field::GasLimit)))
    );
    assert_eq!(client.next_nonce(), 11);
}

#[test]
fn outcomes_that_end_the_wait_are_events() {
    let mined = PollOutcome::Mined(receipt(Some(1), None, false));
    assert_eq!(mined.event(), Some(Event::Mined { success: false }));
    assert_eq!(PollOutcome::Failed(WaitError::Timeout).event(), Some(Event::TimedOut));
    assert_eq!(PollOutcome::Retry { sleep: 5 }.event(), None);
    assert_eq!(PollOutcome::Failed(WaitError::Transport(TransportError::Timeout)).event(), None);
}

#[test]
fn a_silent_node_is_given_up_in_time() {
    let runtime = tokio::runtime::Builder::new_current_thread().enable_time().build().unwrap();
    let wait = ReceiptWait { hash: [3; 32], poll_interval: 40, timeout: 150 };
    let started = std::time::Instant::now();
    let outcome = runtime.block_on(async {
        loop {
            let elapsed = started.elapsed().as_millis() as u64;
            match wait.on_answer(elapsed, Ok(None)) {
                PollOutcome::Retry { sleep } => {
                    tokio::time::sleep(std::time::Duration::from_millis(sleep)).await
                }
                other => return other,
            }
        }
    });
    assert_eq!(outcome, PollOutcome::Failed(WaitError::Timeout));
    let took = started.elapsed().as_millis();
    assert!(took >= 150 && took < 1150, "{took}");
}
