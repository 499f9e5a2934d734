use vstd::prelude::*;
use vstd::string::StringExecFns;
use crate::models::{MAX_RECORDS, MAX_TOTAL_VALUE, TransactionRecord, TxStorage};
use crate::threshold::{sample_sum, values_of};

verus! {

/// The lower-case hex digit of `d`.
pub open spec fn hex_char(d: nat) -> char {
    if d < 10 {
        crate::text::digit_char(d)
    } else if d == 10 {
        'a'
    } else if d == 11 {
        'b'
    } else if d == 12 {
        'c'
    } else if d == 13 {
        'd'
    } else if d == 14 {
        'e'
    } else {
        'f'
    }
}

/// Call data as text: `0x`, then two lower-case hex digits per byte.
pub open spec fn hex_text(b: Seq<u8>) -> Seq<char>
    decreases b.len(),
{
    if b.len() == 0 {
        "0x"@
    } else {
        hex_text(b.drop_last()) + seq![hex_char(b.last() as nat / 16), hex_char(b.last() as nat % 16)]
    }
}

fn hex_digit(d: u8) -> (r: &'static str)
    requires
        d < 16,
    ensures
        r@ == seq![hex_char(d as nat)],
{
    proof {
        reveal_strlit("0");
        reveal_strlit("1");
        reveal_strlit("2");
        reveal_strlit("3");
        reveal_strlit("4");
        reveal_strlit("5");
        reveal_strlit("6");
        reveal_strlit("7");
        reveal_strlit("8");
        reveal_strlit("9");
        reveal_strlit("a");
        reveal_strlit("b");
        reveal_strlit("c");
        reveal_strlit("d");
        reveal_strlit("e");
        reveal_strlit("f");
    }
    if d == 0 {
        "0"
    } else if d == 1 {
        "1"
    } else if d == 2 {
        "2"
    } else if d == 3 {
        "3"
    } else if d == 4 {
        "4"
    } else if d == 5 {
        "5"
    } else if d == 6 {
        "6"
    } else if d == 7 {
        "7"
    } else if d == 8 {
        "8"
    } else if d == 9 {
        "9"
    } else if d == 10 {
        "a"
    } else if d == 11 {
        "b"
    } else if d == 12 {
        "c"
    } else if d == 13 {
        "d"
    } else if d == 14 {
        "e"
    } else {
        "f"
    }
}

/// Writes call data as `0x`-prefixed lower-case hex.
pub fn input_text(bytes: &Vec<u8>) -> (r: String)
    ensures
        r@ == hex_text(bytes@),
{
    let mut out = String::from_str("0x");
    let mut i: usize = 0;
    while i < bytes.len()
        invariant
            i <= bytes.len(),
            out@ == hex_text(bytes@.take(i as int)),
        decreases bytes.len() - i,
    {
        let b = bytes[i];
        proof {
            assert(bytes@.take(i + 1).drop_last() =~= bytes@.take(i as int));
            assert(bytes@.take(i + 1).last() == b);
        }
        out = out.concat(hex_digit(b / 16)).concat(hex_digit(b % 16));
        proof {
            assert(out@ =~= hex_text(bytes@.take(i + 1)));
        }
        i = i + 1;
    }
    proof {
        assert(bytes@.take(bytes@.len() as int) =~= bytes@);
    }
    out
}

/// One transaction as the chain gives it: amounts in wei, call data as bytes.
pub struct ChainTx {
    pub hash: String,
    pub from: String,
    pub to: Option<String>,
    pub value_wei: u128,
    pub gas: u64,
    pub gas_price_wei: u128,
    pub input: Vec<u8>,
}

/// `rec` is the record of `tx` in block `block_number` at `timestamp`.
pub open spec fn record_of(rec: TransactionRecord, tx: ChainTx, block_number: u64, timestamp: u64) -> bool {
    &&& rec.hash == tx.hash
    &&& rec.from == tx.from
    &&& rec.to == tx.to
    &&& rec.value == tx.value_wei
    &&& rec.gas == tx.gas
    &&& rec.gas_price == tx.gas_price_wei
    &&& rec.block_number == block_number
    &&& rec.timestamp == timestamp
    &&& rec.input@ == hex_text(tx.input@)
}

/// The record of a fetched transaction of block `block_number` timestamped
/// `timestamp`: the value and the gas price in wei, the call data as hex.
pub fn to_record(tx: ChainTx, block_number: u64, timestamp: u64) -> (r: TransactionRecord)
    ensures
        record_of(r, tx, block_number, timestamp),
{
    let input = input_text(&tx.input);
    TransactionRecord {
        hash: tx.hash,
        from: tx.from,
        to: tx.to,
        value: tx.value_wei,
        gas: tx.gas,
        gas_price: tx.gas_price_wei,
        block_number,
        timestamp,
        input,
    }
}

/// Total value, in wei, of the transactions.
pub open spec fn chain_value_sum(s: Seq<ChainTx>) -> int
    decreases s.len(),
{
    if s.len() == 0 {
        0
    } else {
        chain_value_sum(s.drop_last()) + s.last().value_wei
    }
}

proof fn lemma_chain_prefix_sum_le(s: Seq<ChainTx>, i: int)
    requires
        0 <= i <= s.len(),
    ensures
        chain_value_sum(s.take(i)) <= chain_value_sum(s),
    decreases s.len(),
{
    if i < s.len() {
        assert(s.take(i) =~= s.drop_last().take(i));
        lemma_chain_prefix_sum_le(s.drop_last(), i);
    } else {
        assert(s.take(i) =~= s);
    }
}

/// The store has room for all of `txs`: for their number and for their
/// total value.
pub open spec fn has_room(storage: TxStorage, txs: Seq<ChainTx>) -> bool {
    &&& storage.records().len() + txs.len() <= MAX_RECORDS
    &&& sample_sum(values_of(storage.records())) + chain_value_sum(txs) <= MAX_TOTAL_VALUE
}

/// Converts and stores the transactions of one block, in order, skipping
/// any that find the store full. Returns how many were stored. When the
/// store has room for all of them, every one is stored, as its record.
pub fn ingest_block(storage: &mut TxStorage, txs: Vec<ChainTx>, block_number: u64, timestamp: u64) -> (n: usize)
    requires
        old(storage).wf(),
    ensures
        final(storage).wf(),
        n <= txs@.len(),
        final(storage).records().len() == old(storage).records().len() + n,
        final(storage).records().take(old(storage).records().len() as int) == old(storage).records(),
        has_room(*old(storage), txs@) ==> {
            &&& n == txs@.len()
            &&& forall|k: int|
                0 <= k < n ==> record_of(
                    #[trigger] final(storage).records()[old(storage).records().len() + k],
                    txs@[k],
                    block_number,
                    timestamp,
                )
        },
{
    let mut n: usize = 0;
    let ghost all = txs@;
    let mut rest = txs;
    let ghost total = rest@.len();
    let ghost start = storage.records();
    let ghost roomy = has_room(*storage, all);
    let ghost start_sum = sample_sum(values_of(start));
    let ghost mut idx: int = 0;
    while rest.len() > 0
        invariant
            storage.wf(),
            total == all.len(),
            0 <= idx <= total,
            rest@ == all.skip(idx),
            n <= idx,
            storage.records().len() == start.len() + n,
            storage.records().take(start.len() as int) == start,
            roomy ==> start.len() + total <= MAX_RECORDS,
            roomy ==> start_sum + chain_value_sum(all) <= MAX_TOTAL_VALUE,
            roomy ==> sample_sum(values_of(storage.records())) <= start_sum + chain_value_sum(
                all.take(idx),
            ),
            roomy ==> n == idx,
            roomy ==> forall|k: int|
                0 <= k < n ==> record_of(
                    #[trigger] storage.records()[start.len() + k],
                    all[k],
                    block_number,
                    timestamp,
                ),
        decreases rest@.len(),
    {
        let ghost t = rest@[0];
        proof {
            assert(all[idx] == t);
            assert(all.take(idx + 1).drop_last() =~= all.take(idx));
            lemma_chain_prefix_sum_le(all, idx + 1);
        }
        let tx = rest.remove(0);
        let ghost before = storage.records();
        let rec = to_record(tx, block_number, timestamp);
        if storage.ingest(rec) {
            proof {
                assert(values_of(storage.records()).drop_last() =~= values_of(before));
                assert(values_of(storage.records()).last() == t.value_wei);
                assert(storage.records().take(start.len() as int) =~= before.take(
                    start.len() as int,
                ));
                if roomy {
                    assert forall|k: int| 0 <= k < n + 1 implies record_of(
                        #[trigger] storage.records()[start.len() + k],
                        all[k],
                        block_number,
                        timestamp,
                    ) by {
                        if k < n {
                            assert(storage.records()[start.len() + k] == before[start.len() + k]);
                        }
                    }
                }
            }
            n = n + 1;
        } else {
            proof {
                assert(!roomy);
            }
        }
        proof {
            if roomy {
                assert(sample_sum(values_of(storage.records())) <= start_sum + chain_value_sum(
                    all.take(idx + 1),
                ));
            }
            idx = idx + 1;
            assert(rest@ =~= all.skip(idx));
        }
    }
    n
}

} // verus!
