use place_coin::address::{public_key, public_key_hash, Address};
use place_coin::block::Block;
use place_coin::blockchain::Blockchain;
use place_coin::error::LedgerError;
use place_coin::pixel::{isqrt, pixel_cost};
use place_coin::signature::sign_transaction;
use place_coin::transaction::{Credits, Transaction, TransactionInput, TransactionOutput};

const MY_NODE_ID: [u8; 32] = [1; 32];
const OTHER_NODE_ID: [u8; 32] = [8; 32];
const NOW: i64 = 1_700_000_000_000_000_000;

fn setup_blockchain() -> Blockchain {
    let miner = public_key_hash(&MY_NODE_ID).unwrap();
    let mut blockchain = Blockchain::new(miner);
    blockchain.mine(NOW).unwrap();
    blockchain
}

fn total_unspent(blockchain: &Blockchain) -> Credits {
    blockchain
        .get_all_unspent_outputs()
        .iter()
        .map(|(_, _, output)| match output {
            TransactionOutput::ToInput { value, .. } => *value,
            TransactionOutput::ToPixel { .. } => 0,
        })
        .sum::<Credits>()
}

/// A signed spend of output `index` of `hash` by the owner of `private_key`.
fn spend(hash: [u8; 32], index: u32, private_key: &[u8; 32]) -> TransactionInput {
    let key = public_key(private_key).unwrap();
    let signature = sign_transaction(&hash, index, &key, private_key).unwrap();
    TransactionInput::FromOutput { transaction_hash: hash, output_index: index, public_key: key, signature }
}

fn first_unspent(blockchain: &Blockchain) -> ([u8; 32], u32, Credits) {
    let outputs = blockchain.get_all_unspent_outputs();
    let (hash, index, output) = outputs[0];
    match output {
        TransactionOutput::ToInput { value, .. } => (hash, index, value),
        TransactionOutput::ToPixel { .. } => panic!("pixel output"),
    }
}

#[test]
fn test_simple_transaction() {
    let mut blockchain = setup_blockchain();
    let recipient = public_key_hash(&OTHER_NODE_ID).unwrap();
    blockchain.create_simple_transaction(&MY_NODE_ID, &recipient, 99, 5).unwrap();
    blockchain.mine(NOW).unwrap();

    let credits = blockchain.get_peer_credits(&recipient);
    assert_eq!(credits, 99, "Peer did not receive the credits.");
    assert_eq!(total_unspent(&blockchain), 2000);
}

#[test]
fn end_to_end_balances() {
    let miner = public_key_hash(&MY_NODE_ID).unwrap();
    let recipient = public_key_hash(&OTHER_NODE_ID).unwrap();
    let mut blockchain = Blockchain::new(miner);
    blockchain.mine(NOW).unwrap();
    assert_eq!(blockchain.get_peer_credits(&miner), 1000);
    blockchain.create_simple_transaction(&MY_NODE_ID, &recipient, 99, 5).unwrap();
    assert_eq!(blockchain.get_pending_transactions().len(), 1);
    assert_eq!(blockchain.get_pending_transactions()[0].get_balance(), 5);
    blockchain.mine(NOW).unwrap();
    assert_eq!(blockchain.get_peer_credits(&recipient), 99);
    assert_eq!(blockchain.get_peer_credits(&miner), 1000 - 99 - 5 + 1005);
    assert_eq!(blockchain.get_pending_transactions().len(), 0);
}

#[test]
fn genesis_block_is_fixed() {
    let miner = public_key_hash(&MY_NODE_ID).unwrap();
    let a = Blockchain::new(miner);
    let b = Blockchain::new(miner);
    assert_eq!(a.get_last_block_hash(), b.get_last_block_hash());
    assert_eq!(*a.get_last_block().get_proof(), 100);
    assert_eq!(a.get_last_block().get_block_height(), Ok(0));
    assert_eq!(a.get_last_block().get_previous_hash(), None);
    assert_eq!(total_unspent(&a), 0);
}

#[test]
fn mining_sets_heights_and_links() {
    let mut blockchain = setup_blockchain();
    let first_hash = blockchain.get_last_block_hash();
    blockchain.mine(NOW).unwrap();
    let last = blockchain.get_last_block();
    assert_eq!(last.get_block_height(), Ok(2));
    assert_eq!(last.get_previous_hash(), Some(first_hash));
    assert_eq!(last.calculate_hash(), blockchain.get_last_block_hash());
    assert_eq!(blockchain.get_blocks().len(), 3);
}

#[test]
fn conservation_after_empty_blocks() {
    let mut blockchain = setup_blockchain();
    blockchain.mine(NOW).unwrap();
    blockchain.mine(NOW).unwrap();
    assert_eq!(total_unspent(&blockchain), 3000);
}

#[test]
fn proof_of_work_is_valid_and_deterministic() {
    let blockchain = setup_blockchain();
    let last_proof = *blockchain.get_last_block().get_proof();
    let proof = blockchain.proof_of_work().unwrap();
    assert!(Blockchain::validate_proof(&last_proof, &proof));
    assert!(Blockchain::validate_proof(&last_proof, &proof));
    let mined = blockchain.get_blocks()[1].get_proof();
    assert!(Blockchain::validate_proof(&100, mined));
}

#[test]
fn negative_balance_is_refused() {
    let blockchain = setup_blockchain();
    let inputs = vec![TransactionInput::FromReward { height: 7, value: 100 }];
    let outputs = vec![TransactionOutput::ToInput { value: 105, public_key_hash: [2; 32] }];
    let r = Transaction::try_new(&blockchain, inputs, outputs, 0);
    assert_eq!(r.err(), Some(LedgerError::InsufficientInputValue));
}

#[test]
fn balance_is_input_minus_output() {
    let blockchain = setup_blockchain();
    let inputs = vec![TransactionInput::FromReward { height: 7, value: 100 }];
    let outputs = vec![
        TransactionOutput::ToInput { value: 60, public_key_hash: [2; 32] },
        TransactionOutput::ToPixel { value: 15, position: (1, 2), color: (255, 0, 0) },
    ];
    let t = Transaction::try_new(&blockchain, inputs, outputs, 3).unwrap();
    assert_eq!(t.get_balance(), 25);
    assert_eq!(t.get_version(), 0);
    assert_eq!(t.get_lock_time(), 3);
    assert_eq!(t.get_inputs().len(), 1);
    assert_eq!(t.get_outputs().len(), 2);
    assert_ne!(*t.get_hash(), [0; 32]);
}

#[test]
fn balance_overflow_is_refused() {
    let blockchain = setup_blockchain();
    let inputs = vec![
        TransactionInput::FromReward { height: 7, value: i64::MAX },
        TransactionInput::FromReward { height: 8, value: 1 },
    ];
    let outputs = vec![TransactionOutput::ToInput { value: 0, public_key_hash: [2; 32] }];
    let r = Transaction::try_new(&blockchain, inputs, outputs, 0);
    assert_eq!(r.err(), Some(LedgerError::ValueOverflow));
}

#[test]
fn negative_output_is_refused() {
    let blockchain = setup_blockchain();
    let inputs = vec![TransactionInput::FromReward { height: 7, value: 100 }];
    let outputs = vec![
        TransactionOutput::ToInput { value: 200, public_key_hash: [2; 32] },
        TransactionOutput::ToInput { value: -100, public_key_hash: [2; 32] },
    ];
    let r = Transaction::try_new(&blockchain, inputs, outputs, 0);
    assert_eq!(r.err(), Some(LedgerError::NegativeOutputValue));
}

#[test]
fn malformed_payloads_fail_validation() {
    let hash = public_key_hash(&MY_NODE_ID).unwrap();
    let mut bytes = vec![0u8];
    bytes.extend_from_slice(&hash);
    let short = Address::from_bytes(&bytes);
    assert!(!short.validate());
    bytes.extend_from_slice(&[0, 0, 0, 0]);
    for j in [0usize, 1, 16, 32, 33, 36] {
        let mut changed = bytes.clone();
        changed[j] ^= 0x5a;
        assert!(!Address::from_bytes(&changed).validate());
    }
    assert_eq!(Address::from_public_key_hash(&hash), Address::from_private_key(&MY_NODE_ID).unwrap());
}

#[test]
fn transaction_hash_depends_on_content() {
    let blockchain = setup_blockchain();
    let make = |value: i64| {
        let inputs = vec![TransactionInput::FromReward { height: 1, value: 10 }];
        let outputs = vec![TransactionOutput::ToInput { value, public_key_hash: [2; 32] }];
        *Transaction::try_new(&blockchain, inputs, outputs, 0).unwrap().get_hash()
    };
    assert_eq!(make(5), make(5));
    assert_ne!(make(5), make(6));
}

#[test]
fn unknown_input_is_refused() {
    let blockchain = setup_blockchain();
    let inputs = vec![spend([9; 32], 0, &MY_NODE_ID)];
    let r = Transaction::try_new(&blockchain, inputs, vec![], 0);
    assert_eq!(r.err(), Some(LedgerError::UnknownInput));
}

#[test]
fn output_index_out_of_range_is_refused() {
    let blockchain = setup_blockchain();
    let (hash, _, _) = first_unspent(&blockchain);
    let inputs = vec![spend(hash, 5, &MY_NODE_ID)];
    let r = Transaction::try_new(&blockchain, inputs, vec![], 0);
    assert_eq!(r.err(), Some(LedgerError::OutputIndexOutOfRange));
}

#[test]
fn pixel_output_cannot_be_spent() {
    let mut blockchain = setup_blockchain();
    let (hash, index, value) = first_unspent(&blockchain);
    let inputs = vec![spend(hash, index, &MY_NODE_ID)];
    let outputs = vec![TransactionOutput::ToPixel { value, position: (0, 0), color: (1, 2, 3) }];
    let t = Transaction::try_new(&blockchain, inputs, outputs, 0).unwrap();
    let pixel_hash = *t.get_hash();
    blockchain.new_transaction(t).unwrap();
    blockchain.mine(NOW).unwrap();
    let inputs = vec![spend(pixel_hash, 0, &MY_NODE_ID)];
    let r = Transaction::try_new(&blockchain, inputs, vec![], 0);
    assert_eq!(r.err(), Some(LedgerError::OutputTypeMismatch));
    // The pixel purchase left the spendable total short by its price.
    assert_eq!(total_unspent(&blockchain), 1000);
}

#[test]
fn spend_by_another_key_is_unauthorized() {
    let blockchain = setup_blockchain();
    let (hash, index, _) = first_unspent(&blockchain);
    let inputs = vec![spend(hash, index, &OTHER_NODE_ID)];
    let r = Transaction::try_new(&blockchain, inputs, vec![], 0);
    assert_eq!(r.err(), Some(LedgerError::Unauthorized));
}

#[test]
fn forged_signature_is_unauthorized() {
    let blockchain = setup_blockchain();
    let (hash, index, _) = first_unspent(&blockchain);
    let mut input = spend(hash, index, &MY_NODE_ID);
    if let TransactionInput::FromOutput { signature, .. } = &mut input {
        signature.0[10] ^= 1;
    }
    let r = Transaction::try_new(&blockchain, vec![input], vec![], 0);
    assert_eq!(r.err(), Some(LedgerError::Unauthorized));
}

#[test]
fn signed_spend_is_accepted() {
    let blockchain = setup_blockchain();
    let (hash, index, value) = first_unspent(&blockchain);
    let inputs = vec![spend(hash, index, &MY_NODE_ID)];
    let outputs = vec![TransactionOutput::ToInput { value: value - 1, public_key_hash: [3; 32] }];
    let t = Transaction::try_new(&blockchain, inputs, outputs, 0).unwrap();
    assert_eq!(t.get_balance(), 1);
}

#[test]
fn double_spend_is_refused() {
    let mut blockchain = setup_blockchain();
    let (hash, index, value) = first_unspent(&blockchain);
    let pay = |amount: i64| {
        let inputs = vec![spend(hash, index, &MY_NODE_ID)];
        let outputs = vec![TransactionOutput::ToInput { value: amount, public_key_hash: [3; 32] }];
        Transaction::try_new(&blockchain, inputs, outputs, 0).unwrap()
    };
    let first = pay(value);
    let second = pay(value - 10);
    assert_eq!(blockchain.new_transaction(first), Ok(()));
    assert_eq!(blockchain.new_transaction(second), Err(LedgerError::DoubleSpend));
    assert_eq!(blockchain.get_pending_transactions().len(), 1);
}

#[test]
fn double_spend_within_one_transaction_is_refused() {
    let mut blockchain = setup_blockchain();
    let (hash, index, _) = first_unspent(&blockchain);
    let inputs = vec![spend(hash, index, &MY_NODE_ID), spend(hash, index, &MY_NODE_ID)];
    let t = Transaction::try_new(&blockchain, inputs, vec![], 0).unwrap();
    assert_eq!(t.get_balance(), 2000);
    assert_eq!(blockchain.new_transaction(t), Err(LedgerError::DoubleSpend));
}

#[test]
fn spent_output_is_not_unspent() {
    let mut blockchain = setup_blockchain();
    let (hash, index, _) = first_unspent(&blockchain);
    assert!(!blockchain.is_output_spent(&hash, index));
    let recipient = public_key_hash(&OTHER_NODE_ID).unwrap();
    blockchain.create_simple_transaction(&MY_NODE_ID, &recipient, 10, 0).unwrap();
    blockchain.mine(NOW).unwrap();
    assert!(blockchain.is_output_spent(&hash, index));
    assert!(blockchain.find_transaction(&hash).is_some());
    assert!(blockchain.find_transaction(&[7; 32]).is_none());
}

#[test]
fn payment_without_funds_is_refused() {
    let mut blockchain = setup_blockchain();
    let recipient = public_key_hash(&OTHER_NODE_ID).unwrap();
    let r = blockchain.create_simple_transaction(&MY_NODE_ID, &recipient, 996, 5);
    assert_eq!(r, Err(LedgerError::InsufficientFunds));
    assert_eq!(blockchain.get_pending_transactions().len(), 0);
    let r = blockchain.create_simple_transaction(&OTHER_NODE_ID, &recipient, 1, 0);
    assert_eq!(r, Err(LedgerError::InsufficientFunds));
}

#[test]
fn second_payment_before_mining_finds_no_funds() {
    let mut blockchain = setup_blockchain();
    let recipient = public_key_hash(&OTHER_NODE_ID).unwrap();
    blockchain.create_simple_transaction(&MY_NODE_ID, &recipient, 10, 0).unwrap();
    let r = blockchain.create_simple_transaction(&MY_NODE_ID, &recipient, 10, 0);
    assert_eq!(r, Err(LedgerError::InsufficientFunds));
}

#[test]
fn payment_of_the_whole_balance_leaves_zero_change() {
    let mut blockchain = setup_blockchain();
    let miner = public_key_hash(&MY_NODE_ID).unwrap();
    let recipient = public_key_hash(&OTHER_NODE_ID).unwrap();
    blockchain.create_simple_transaction(&MY_NODE_ID, &recipient, 990, 10).unwrap();
    blockchain.mine(NOW).unwrap();
    assert_eq!(blockchain.get_peer_credits(&recipient), 990);
    assert_eq!(blockchain.get_peer_credits(&miner), 1010);
}

#[test]
fn invalid_private_key_is_refused() {
    let mut blockchain = setup_blockchain();
    let r = blockchain.create_simple_transaction(&[0; 32], &[2; 32], 1, 0);
    assert_eq!(r, Err(LedgerError::InvalidPrivateKey));
    assert!(Address::from_private_key(&[0; 32]).is_none());
    assert!(public_key_hash(&[0xff; 32]).is_none());
}

#[test]
fn height_of_orphan_block_is_unresolvable() {
    let block = Block::new(0, Vec::new(), 1, Some([0; 32]));
    assert_eq!(block.get_block_height(), Err(LedgerError::BlockHeightUnresolvable));
    let genesis = Block::new(0, Vec::new(), 1, None);
    assert_eq!(genesis.get_block_height(), Ok(0));
    assert_ne!(block.calculate_hash(), genesis.calculate_hash());
}

#[test]
fn derived_address_validates() {
    for key in [MY_NODE_ID, OTHER_NODE_ID, [0x42; 32]] {
        let address = Address::from_private_key(&key).unwrap();
        assert!(address.validate());
        assert!(Address::from_string(address.as_str()).validate());
    }
}

#[test]
fn address_of_hash_matches_address_of_key() {
    let hash = public_key_hash(&MY_NODE_ID).unwrap();
    let a = Address::from_public_key_hash(&hash);
    let b = Address::from_private_key(&MY_NODE_ID).unwrap();
    assert_eq!(a.as_str(), b.as_str());
    assert!(a.as_str().len() > 40);
}

#[test]
fn changed_address_character_fails_validation() {
    let address = Address::from_private_key(&MY_NODE_ID).unwrap();
    let text = address.as_str().to_string();
    let mut changed = 0;
    for (i, c) in text.char_indices().skip(2) {
        let replacement = if c == '2' { '3' } else { '2' };
        let mut altered = text.clone();
        altered.replace_range(i..i + 1, &replacement.to_string());
        assert!(!Address::from_string(&altered).validate(), "{}", altered);
        changed += 1;
    }
    assert!(changed > 30);
}

#[test]
fn malformed_addresses_fail_validation() {
    assert!(!Address::from_string("").validate());
    assert!(!Address::from_string("0OIl").validate());
    assert!(!Address::from_string("2NEpo7TZRRrLZSi2U").validate());
    let short = Address::from_private_key(&MY_NODE_ID).unwrap();
    let truncated = &short.as_str()[..short.as_str().len() - 1];
    assert!(!Address::from_string(truncated).validate());
}

#[test]
fn pixel_cost_rises_with_distance_and_owners() {
    assert_eq!(pixel_cost((0, 0), 0), Some(1));
    assert_eq!(pixel_cost((3, 4), 0), Some(5));
    assert_eq!(pixel_cost((-3, 4), 2), Some(15));
    assert_eq!(pixel_cost((100, 0), 0), Some(100));
    assert_eq!(pixel_cost((0, -100), 1), Some(200));
    let near = pixel_cost((10, 10), 3).unwrap();
    let far = pixel_cost((20, 10), 3).unwrap();
    assert!(near <= far);
    assert!(far < pixel_cost((20, 10), 4).unwrap());
}

#[test]
fn pixel_cost_overflow_is_none() {
    let cost = pixel_cost((i32::MIN, i32::MIN), 0).unwrap();
    assert_eq!(cost, 1 + (isqrt(2 * (1u128 << 62) * 9801) / 100) as i64);
    assert_eq!(pixel_cost((i32::MIN, i32::MIN), u64::MAX), None);
}

#[test]
fn integer_square_roots() {
    assert_eq!(isqrt(0), 0);
    assert_eq!(isqrt(1), 1);
    assert_eq!(isqrt(15), 3);
    assert_eq!(isqrt(16), 4);
    assert_eq!(isqrt(245025), 495);
}

#[test]
fn admission_resolves_inputs_against_its_own_chain() {
    let elsewhere = setup_blockchain();
    let (hash, index, value) = first_unspent(&elsewhere);
    let inputs = vec![spend(hash, index, &MY_NODE_ID)];
    let outputs = vec![TransactionOutput::ToInput { value, public_key_hash: [3; 32] }];
    let t = Transaction::try_new(&elsewhere, inputs, outputs, 0).unwrap();
    let mut here = Blockchain::new([5; 32]);
    assert_eq!(here.new_transaction(t), Err(LedgerError::UnknownInput));
    assert_eq!(here.get_pending_transactions().len(), 0);
}

fn owned_unspent(blockchain: &Blockchain, owner: &[u8; 32]) -> ([u8; 32], u32, Credits) {
    for (hash, index, output) in blockchain.get_all_unspent_outputs() {
        if let TransactionOutput::ToInput { value, public_key_hash } = output {
            if public_key_hash == *owner && !blockchain.get_pending_transactions().iter().any(|t| {
                t.get_inputs().iter().any(|i| matches!(i, TransactionInput::FromOutput { transaction_hash, output_index, .. } if *transaction_hash == hash && *output_index == index))
            }) {
                return (hash, index, value);
            }
        }
    }
    panic!("no unspent output");
}

fn pixel_purchase(
    blockchain: &Blockchain,
    private_key: &[u8; 32],
    position: (i32, i32),
    price: Credits,
) -> Transaction {
    let owner = public_key_hash(private_key).unwrap();
    let (hash, index, value) = owned_unspent(blockchain, &owner);
    let inputs = vec![spend(hash, index, private_key)];
    let outputs = vec![
        TransactionOutput::ToPixel { value: price, position, color: (0, 0, 255) },
        TransactionOutput::ToInput { value: value - price, public_key_hash: owner },
    ];
    Transaction::try_new(blockchain, inputs, outputs, 0).unwrap()
}

#[test]
fn pixel_price_is_enforced_at_admission() {
    let mut blockchain = setup_blockchain();
    let other = public_key_hash(&OTHER_NODE_ID).unwrap();
    blockchain.create_simple_transaction(&MY_NODE_ID, &other, 500, 0).unwrap();
    blockchain.mine(NOW).unwrap();

    let cheap = pixel_purchase(&blockchain, &MY_NODE_ID, (100, 0), 99);
    assert_eq!(blockchain.new_transaction(cheap), Err(LedgerError::PixelPriceTooLow));
    let fair = pixel_purchase(&blockchain, &MY_NODE_ID, (100, 0), 100);
    assert_eq!(blockchain.new_transaction(fair), Ok(()));
    blockchain.mine(NOW).unwrap();

    // One distinct earlier owner doubles the price for anyone else.
    let cheap = pixel_purchase(&blockchain, &OTHER_NODE_ID, (100, 0), 199);
    assert_eq!(blockchain.new_transaction(cheap), Err(LedgerError::PixelPriceTooLow));
    let fair = pixel_purchase(&blockchain, &OTHER_NODE_ID, (100, 0), 200);
    assert_eq!(blockchain.new_transaction(fair), Ok(()));
    blockchain.mine(NOW).unwrap();

    // The first owner is not counted against itself.
    let again = pixel_purchase(&blockchain, &MY_NODE_ID, (100, 0), 200);
    assert_eq!(blockchain.new_transaction(again), Ok(()));
}
