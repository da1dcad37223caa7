//! Alert keys: the deduplication identity of an overdue record, derived from
//! the chain id and the bid id alone.

use vstd::prelude::*;
use vstd::string::StringExecFns;
use crate::numfmt::{
    dec_of, i32_to_dec, int_dec_of, is_digit, lemma_dec_of_shape, lemma_dec_of_value,
};

verus! {

/// The alert key of a record: the chain id in decimal, a colon, the bid id.
pub open spec fn key_of(chain_id: int, bid_id: Seq<char>) -> Seq<char> {
    int_dec_of(chain_id) + seq![':'] + bid_id
}

/// Build the deduplication key for a bid on a chain.
pub fn make_bid_key(chain_id: i32, bid_id: &str) -> (r: String)
    ensures
        r@ == key_of(chain_id as int, bid_id@),
{
    let mut r = i32_to_dec(chain_id);
    r.append(":");
    r.append(bid_id);
    proof {
        reveal_strlit(":");
        assert(r@ =~= key_of(chain_id as int, bid_id@));
    }
    r
}

/// The signed rendering never contains a colon and determines the number.
proof fn lemma_int_dec_no_colon(n: int)
    ensures
        int_dec_of(n).len() >= 1,
        forall|i: int| 0 <= i < int_dec_of(n).len() ==> #[trigger] int_dec_of(n)[i] != ':',
{
    if n < 0 {
        lemma_dec_of_shape((-n) as nat);
        let s = int_dec_of(n);
        let d = dec_of((-n) as nat);
        assert forall|i: int| 0 <= i < s.len() implies #[trigger] s[i] != ':' by {
            if i >= 1 {
                assert(s[i] == d[i - 1]);
                assert(is_digit(d[i - 1]));
            }
        }
    } else {
        lemma_dec_of_shape(n as nat);
        let s = int_dec_of(n);
        assert forall|i: int| 0 <= i < s.len() implies #[trigger] s[i] != ':' by {
            assert(is_digit(s[i]));
        }
    }
}

proof fn lemma_int_dec_injective(a: int, b: int)
    requires
        int_dec_of(a) == int_dec_of(b),
    ensures
        a == b,
{
    lemma_dec_of_shape((if a < 0 { -a } else { a }) as nat);
    lemma_dec_of_shape((if b < 0 { -b } else { b }) as nat);
    if a < 0 && b < 0 {
        let da = dec_of((-a) as nat);
        let db = dec_of((-b) as nat);
        assert(da =~= db) by {
            assert(int_dec_of(a) == seq!['-'] + da);
            assert(int_dec_of(b) == seq!['-'] + db);
            assert((seq!['-'] + da).len() == 1 + da.len());
            assert((seq!['-'] + db).len() == 1 + db.len());
            assert(da.len() == db.len());
            assert forall|i: int| 0 <= i < da.len() implies da[i] == db[i] by {
                assert(0 <= i < db.len());
                assert(int_dec_of(a)[i + 1] == da[i]);
                assert(int_dec_of(b)[i + 1] == db[i]);
            }
        }
        lemma_dec_of_value((-a) as nat);
        lemma_dec_of_value((-b) as nat);
    } else if a >= 0 && b >= 0 {
        lemma_dec_of_value(a as nat);
        lemma_dec_of_value(b as nat);
    } else if a < 0 {
        assert(int_dec_of(a)[0] == '-');
        assert(is_digit(int_dec_of(b)[0]));
        assert(false);
    } else {
        assert(int_dec_of(b)[0] == '-');
        assert(is_digit(int_dec_of(a)[0]));
        assert(false);
    }
}

/// The alert key is a function of the chain id and the bid id alone, and it
/// separates them: two keys are equal exactly when both the chain ids and the
/// bid ids are. A record's other fields never influence its key.
pub proof fn lemma_key_injective(c1: int, b1: Seq<char>, c2: int, b2: Seq<char>)
    ensures
        key_of(c1, b1) == key_of(c2, b2) <==> (c1 == c2 && b1 == b2),
{
    lemma_int_dec_no_colon(c1);
    lemma_int_dec_no_colon(c2);
    let pre1 = int_dec_of(c1);
    let pre2 = int_dec_of(c2);
    let k1 = key_of(c1, b1);
    let k2 = key_of(c2, b2);
    if c1 == c2 && b1 == b2 {
        assert(k1 =~= k2);
    }
    if k1 == k2 {
        assert(pre1.len() == pre2.len()) by {
            if pre1.len() < pre2.len() {
                assert(k1[pre1.len() as int] == ':');
                assert(k2[pre1.len() as int] == pre2[pre1.len() as int]);
                assert(false);
            }
            if pre2.len() < pre1.len() {
                assert(k2[pre2.len() as int] == ':');
                assert(k1[pre2.len() as int] == pre1[pre2.len() as int]);
                assert(false);
            }
        }
        assert(pre1 =~= pre2) by {
            assert forall|i: int| 0 <= i < pre1.len() implies pre1[i] == pre2[i] by {
                assert(k1[i] == pre1[i]);
                assert(k2[i] == pre2[i]);
            }
        }
        lemma_int_dec_injective(c1, c2);
        assert(b1 =~= b2) by {
            assert(k1.len() == k2.len());
            assert forall|i: int| 0 <= i < b1.len() implies b1[i] == b2[i] by {
                assert(k1[pre1.len() + 1 + i] == b1[i]);
                assert(k2[pre2.len() + 1 + i] == b2[i]);
            }
        }
    }
}

} // verus!
