//! User and worker statistics, decoded from the values of the pool's JSON
//! document.

use vstd::prelude::*;
use vstd::arithmetic::power::*;

use crate::error::DecodeError;
use crate::hashrate::{
    decode_hashrate, digit_of, digits_value, frac_len, hashrate_of, is_decimal,
    lemma_append_zeros, lemma_digit_point_digit_unit, lemma_digit_unit, lemma_trim_noop,
    lemma_zero_value, parse_decimal, sig_digits, zeros, Decimal,
};

verus! {

/// One worker's entry of the `worker` array, as its values stand in the
/// document: hash rates and the best share still as text.
#[derive(Debug, Clone)]
pub struct RawWorkerStats {
    pub worker_name: String,
    pub hashrate1m: String,
    pub hashrate5m: String,
    pub hashrate1hr: String,
    pub hashrate1d: String,
    pub hashrate7d: String,
    pub last_share: u64,
    pub shares: usize,
    /// Decimal text of the best share (`"105654.8966108053"`, `"-1"`).
    pub best_share: String,
    pub best_ever: usize,
}

/// A user's document, as its values stand in it.
#[derive(Debug, Clone)]
pub struct RawUserStats {
    pub hashrate1m: String,
    pub hashrate5m: String,
    pub hashrate1hr: String,
    pub hashrate1d: String,
    pub hashrate7d: String,
    pub last_share: u64,
    pub workers: usize,
    pub shares: usize,
    /// Decimal text of the best share (`"105654.8966108053"`, `"-1"`).
    pub best_share: String,
    pub best_ever: usize,
    pub authorised: u64,
    pub worker: Vec<RawWorkerStats>,
}

/// Worker stats; hash rates in hashes per second.
#[derive(Debug, Clone)]
pub struct WorkerStats {
    pub worker_name: String,
    pub hashrate1m: Decimal,
    pub hashrate5m: Decimal,
    pub hashrate1hr: Decimal,
    pub hashrate1d: Decimal,
    pub hashrate7d: Decimal,
    /// Last share timestamp, seconds since the epoch.
    pub last_share: u64,
    pub shares: usize,
    pub best_share: SignedDecimal,
    pub best_ever: usize,
}

/// User stats; hash rates in hashes per second.
#[derive(Debug, Clone)]
pub struct UserStats {
    pub hashrate1m: Decimal,
    pub hashrate5m: Decimal,
    pub hashrate1hr: Decimal,
    pub hashrate1d: Decimal,
    pub hashrate7d: Decimal,
    /// Last share timestamp, seconds since the epoch.
    pub last_share: u64,
    /// Number of workers, as the pool counts them.
    pub workers: usize,
    pub shares: usize,
    pub best_share: SignedDecimal,
    pub best_ever: usize,
    /// Authorisation timestamp, seconds since the epoch.
    pub authorised: u64,
    pub worker: Vec<WorkerStats>,
}

/// The field `name` with hash-rate text `text` where that text does not
/// decode, else `rest`.
pub open spec fn rate_fault(name: Seq<char>, text: Seq<char>, rest: Option<(Seq<char>, Seq<char>)>) -> Option<(Seq<char>, Seq<char>)> {
    if hashrate_of(text) is Err {
        Some((name, text))
    } else {
        rest
    }
}

/// A signed decimal number: `magnitude`, negated where `negative`.
#[derive(Debug, Clone)]
pub struct SignedDecimal {
    pub negative: bool,
    pub magnitude: Decimal,
}

/// Whether a number's text starts with a minus sign.
pub open spec fn has_minus(text: Seq<char>) -> bool {
    text.len() > 0 && text[0] == '-'
}

/// A number's text without its leading minus sign, if it has one.
pub open spec fn unsigned_part(text: Seq<char>) -> Seq<char> {
    if has_minus(text) {
        text.drop_first()
    } else {
        text
    }
}

/// The best-share field where its text is not a decimal literal with an
/// optional leading minus sign.
pub open spec fn best_share_fault(text: Seq<char>) -> Option<(Seq<char>, Seq<char>)> {
    if is_decimal(unsigned_part(text)) {
        None
    } else {
        Some(("bestshare"@, text))
    }
}

/// The first field of a worker entry, in the document's order, whose text
/// does not decode: its wire name and its text.
pub open spec fn worker_fault(w: RawWorkerStats) -> Option<(Seq<char>, Seq<char>)> {
    rate_fault("hashrate1m"@, w.hashrate1m@,
    rate_fault("hashrate5m"@, w.hashrate5m@,
    rate_fault("hashrate1hr"@, w.hashrate1hr@,
    rate_fault("hashrate1d"@, w.hashrate1d@,
    rate_fault("hashrate7d"@, w.hashrate7d@,
    best_share_fault(w.best_share@))))))
}

/// The first field of a user's own values (the workers aside) whose text
/// does not decode.
pub open spec fn user_fault(u: RawUserStats) -> Option<(Seq<char>, Seq<char>)> {
    rate_fault("hashrate1m"@, u.hashrate1m@,
    rate_fault("hashrate5m"@, u.hashrate5m@,
    rate_fault("hashrate1hr"@, u.hashrate1hr@,
    rate_fault("hashrate1d"@, u.hashrate1d@,
    rate_fault("hashrate7d"@, u.hashrate7d@,
    best_share_fault(u.best_share@))))))
}

/// `d` is what the hash-rate text `text` decodes to.
pub open spec fn rate_is(d: Decimal, text: Seq<char>) -> bool {
    hashrate_of(text) == Ok::<(Seq<u8>, nat), Seq<char>>(d@)
}

/// `d` is the value of the signed decimal literal `text`.
pub open spec fn best_share_is(d: SignedDecimal, text: Seq<char>) -> bool {
    &&& d.negative == has_minus(text)
    &&& d.magnitude@ == (sig_digits(unsigned_part(text)), frac_len(unsigned_part(text)))
}

/// `s` holds the decoded values of the worker entry `w`.
pub open spec fn worker_decoded(w: RawWorkerStats, s: WorkerStats) -> bool {
    &&& s.worker_name@ == w.worker_name@
    &&& rate_is(s.hashrate1m, w.hashrate1m@)
    &&& rate_is(s.hashrate5m, w.hashrate5m@)
    &&& rate_is(s.hashrate1hr, w.hashrate1hr@)
    &&& rate_is(s.hashrate1d, w.hashrate1d@)
    &&& rate_is(s.hashrate7d, w.hashrate7d@)
    &&& s.last_share == w.last_share
    &&& s.shares == w.shares
    &&& best_share_is(s.best_share, w.best_share@)
    &&& s.best_ever == w.best_ever
}

/// `s` holds the decoded values of the user document `u`, its workers
/// in the same order.
pub open spec fn user_decoded(u: RawUserStats, s: UserStats) -> bool {
    &&& rate_is(s.hashrate1m, u.hashrate1m@)
    &&& rate_is(s.hashrate5m, u.hashrate5m@)
    &&& rate_is(s.hashrate1hr, u.hashrate1hr@)
    &&& rate_is(s.hashrate1d, u.hashrate1d@)
    &&& rate_is(s.hashrate7d, u.hashrate7d@)
    &&& s.last_share == u.last_share
    &&& s.workers == u.workers
    &&& s.shares == u.shares
    &&& best_share_is(s.best_share, u.best_share@)
    &&& s.best_ever == u.best_ever
    &&& s.authorised == u.authorised
    &&& s.worker@.len() == u.worker@.len()
    &&& forall|i: int| 0 <= i < u.worker@.len() ==> worker_decoded(#[trigger] u.worker@[i], s.worker@[i])
}

/// `e` names the field `f` and holds its text.
pub open spec fn is_field_error(e: DecodeError, f: (Seq<char>, Seq<char>)) -> bool {
    e matches DecodeError::Field { field, text } && field@ == f.0 && text@ == f.1
}

/// Decodes one hash-rate field; a failure names the field.
fn decode_rate(name: &str, text: &String) -> (r: Result<Decimal, DecodeError>)
    ensures
        match r {
            Ok(d) => rate_is(d, text@) && d.wf(),
            Err(e) => hashrate_of(text@) is Err && is_field_error(e, (name@, text@)),
        },
{
    match decode_hashrate(text.as_str()) {
        Ok(d) => Ok(d),
        Err(_) => Err(DecodeError::Field { field: name.to_owned(), text: text.clone() }),
    }
}

/// Decodes the best-share field, a decimal literal with an optional
/// leading minus sign.
fn decode_best_share(text: &String) -> (r: Result<SignedDecimal, DecodeError>)
    ensures
        match r {
            Ok(d) => best_share_fault(text@) is None && best_share_is(d, text@)
                && d.magnitude.wf(),
            Err(e) => best_share_fault(text@) matches Some(f) && is_field_error(e, f),
        },
{
    let t = text.as_str();
    let n = t.unicode_len();
    let negative = n > 0 && t.get_char(0) == '-';
    let rest = if negative {
        t.substring_char(1, n)
    } else {
        t
    };
    assert(rest@ == unsigned_part(text@));
    match parse_decimal(rest) {
        Some((digits, scale)) => Ok(SignedDecimal { negative, magnitude: Decimal { digits, scale } }),
        None => Err(DecodeError::Field { field: "bestshare".to_owned(), text: text.clone() }),
    }
}

impl WorkerStats {
    /// Every decimal value is well formed.
    pub open spec fn wf(&self) -> bool {
        &&& self.hashrate1m.wf()
        &&& self.hashrate5m.wf()
        &&& self.hashrate1hr.wf()
        &&& self.hashrate1d.wf()
        &&& self.hashrate7d.wf()
        &&& self.best_share.magnitude.wf()
    }

    /// Decodes a worker entry: every hash-rate field through the hash-rate
    /// codec, the best share as a decimal literal, the rest as they are.
    /// The first field that does not decode is the error.
    pub fn decode(raw: &RawWorkerStats) -> (r: Result<WorkerStats, DecodeError>)
        ensures
            r is Ok <==> worker_fault(*raw) is None,
            r matches Ok(s) ==> worker_decoded(*raw, s) && s.wf(),
            r matches Err(e) ==> worker_fault(*raw) matches Some(f) && is_field_error(e, f),
    {
        let hashrate1m = match decode_rate("hashrate1m", &raw.hashrate1m) {
            Ok(d) => d,
            Err(e) => return Err(e),
        };
        let hashrate5m = match decode_rate("hashrate5m", &raw.hashrate5m) {
            Ok(d) => d,
            Err(e) => return Err(e),
        };
        let hashrate1hr = match decode_rate("hashrate1hr", &raw.hashrate1hr) {
            Ok(d) => d,
            Err(e) => return Err(e),
        };
        let hashrate1d = match decode_rate("hashrate1d", &raw.hashrate1d) {
            Ok(d) => d,
            Err(e) => return Err(e),
        };
        let hashrate7d = match decode_rate("hashrate7d", &raw.hashrate7d) {
            Ok(d) => d,
            Err(e) => return Err(e),
        };
        let best_share = match decode_best_share(&raw.best_share) {
            Ok(d) => d,
            Err(e) => return Err(e),
        };
        Ok(WorkerStats {
            worker_name: raw.worker_name.clone(),
            hashrate1m,
            hashrate5m,
            hashrate1hr,
            hashrate1d,
            hashrate7d,
            last_share: raw.last_share,
            shares: raw.shares,
            best_share,
            best_ever: raw.best_ever,
        })
    }
}

/// The first worker entry of `ws`, from index `i` on, that does not
/// decode: its index.
pub open spec fn first_bad_worker(ws: Seq<RawWorkerStats>, i: int) -> Option<int>
    decreases ws.len() - i,
{
    if i >= ws.len() || i < 0 {
        None
    } else if worker_fault(ws[i]) is Some {
        Some(i)
    } else {
        first_bad_worker(ws, i + 1)
    }
}

/// Why a user document does not decode, if it does not: the first of its
/// own fields that fails, else the first failing field of the first worker
/// entry that fails.
pub open spec fn user_stats_fault(u: RawUserStats) -> Option<(Seq<char>, Seq<char>)> {
    match user_fault(u) {
        Some(f) => Some(f),
        None => match first_bad_worker(u.worker@, 0) {
            Some(i) => worker_fault(u.worker@[i]),
            None => None,
        },
    }
}

proof fn lemma_first_bad_worker(ws: Seq<RawWorkerStats>, i: int, j: int)
    requires
        0 <= i <= j <= ws.len(),
        forall|k: int| i <= k < j ==> worker_fault(#[trigger] ws[k]) is None,
    ensures
        first_bad_worker(ws, i) == first_bad_worker(ws, j),
    decreases j - i,
{
    if i < j {
        lemma_first_bad_worker(ws, i + 1, j);
    }
}

impl UserStats {
    /// Every decimal value, the workers' too, is well formed.
    pub open spec fn wf(&self) -> bool {
        &&& self.hashrate1m.wf()
        &&& self.hashrate5m.wf()
        &&& self.hashrate1hr.wf()
        &&& self.hashrate1d.wf()
        &&& self.hashrate7d.wf()
        &&& self.best_share.magnitude.wf()
        &&& forall|i: int| 0 <= i < self.worker@.len() ==> (#[trigger] self.worker@[i]).wf()
    }

    /// Decodes a user document: its own fields as `WorkerStats::decode`
    /// does, then each worker entry in order. An empty `worker` array gives
    /// an empty sequence.
    #[verifier::rlimit(60)]
    pub fn decode(raw: &RawUserStats) -> (r: Result<UserStats, DecodeError>)
        ensures
            r is Ok <==> user_stats_fault(*raw) is None,
            r matches Ok(s) ==> user_decoded(*raw, s) && s.wf(),
            r matches Err(e) ==> user_stats_fault(*raw) matches Some(f) && is_field_error(e, f),
    {
        let hashrate1m = match decode_rate("hashrate1m", &raw.hashrate1m) {
            Ok(d) => d,
            Err(e) => return Err(e),
        };
        let hashrate5m = match decode_rate("hashrate5m", &raw.hashrate5m) {
            Ok(d) => d,
            Err(e) => return Err(e),
        };
        let hashrate1hr = match decode_rate("hashrate1hr", &raw.hashrate1hr) {
            Ok(d) => d,
            Err(e) => return Err(e),
        };
        let hashrate1d = match decode_rate("hashrate1d", &raw.hashrate1d) {
            Ok(d) => d,
            Err(e) => return Err(e),
        };
        let hashrate7d = match decode_rate("hashrate7d", &raw.hashrate7d) {
            Ok(d) => d,
            Err(e) => return Err(e),
        };
        let best_share = match decode_best_share(&raw.best_share) {
            Ok(d) => d,
            Err(e) => return Err(e),
        };
        assert(user_fault(*raw) is None);
        let mut worker: Vec<WorkerStats> = Vec::new();
        let mut i: usize = 0;
        while i < raw.worker.len()
            invariant
                i <= raw.worker@.len(),
                user_fault(*raw) is None,
                worker@.len() == i,
                forall|k: int| 0 <= k < i ==> worker_decoded(#[trigger] raw.worker@[k], worker@[k]),
                forall|k: int| 0 <= k < i ==> worker_fault(#[trigger] raw.worker@[k]) is None,
                forall|k: int| 0 <= k < i ==> (#[trigger] worker@[k]).wf(),
            decreases raw.worker@.len() - i,
        {
            match WorkerStats::decode(&raw.worker[i]) {
                Ok(w) => {
                    worker.push(w);
                },
                Err(e) => {
                    proof {
                        lemma_first_bad_worker(raw.worker@, 0, i as int);
                        assert(worker_fault(raw.worker@[i as int]) is Some);
                        assert(first_bad_worker(raw.worker@, i as int) == Some(i as int));
                        assert(user_stats_fault(*raw) == worker_fault(raw.worker@[i as int]));
                    }
                    return Err(e);
                },
            }
            i = i + 1;
        }
        proof {
            lemma_first_bad_worker(raw.worker@, 0, raw.worker@.len() as int);
        }
        Ok(UserStats {
            hashrate1m,
            hashrate5m,
            hashrate1hr,
            hashrate1d,
            hashrate7d,
            last_share: raw.last_share,
            workers: raw.workers,
            shares: raw.shares,
            best_share,
            best_ever: raw.best_ever,
            authorised: raw.authorised,
            worker,
        })
    }
}

/// A user document whose `worker` array is empty is never refused on
/// account of its workers: where its own fields decode, it decodes, and to
/// an empty sequence of workers.
pub proof fn lemma_empty_worker_array(u: RawUserStats, s: UserStats)
    requires
        u.worker@.len() == 0,
    ensures
        user_stats_fault(u) == user_fault(u),
        user_decoded(u, s) ==> s.worker@.len() == 0,
{
}

/// `d` is `v` hashes per second, written as a whole number.
pub open spec fn whole_value_is(d: Decimal, v: nat) -> bool {
    d.scale == 0 && digits_value(d.digits@) == v
}

/// A user document whose five hash rates read `"0"`, `"1K"`, `"6.2M"`,
/// `"7G"` and `"2T"` is never refused for them, and decodes them to 0,
/// 1 000, 6 200 000, 7 000 000 000 and 2 000 000 000 000 hashes per second.
pub proof fn lemma_sample_user_rates(u: RawUserStats, s: UserStats)
    requires
        u.hashrate1m@ == "0"@,
        u.hashrate5m@ == "1K"@,
        u.hashrate1hr@ == "6.2M"@,
        u.hashrate1d@ == "7G"@,
        u.hashrate7d@ == "2T"@,
    ensures
        user_fault(u) == best_share_fault(u.best_share@),
        user_decoded(u, s) ==> {
            &&& whole_value_is(s.hashrate1m, 0)
            &&& whole_value_is(s.hashrate5m, 1_000)
            &&& whole_value_is(s.hashrate1hr, 6_200_000)
            &&& whole_value_is(s.hashrate1d, 7_000_000_000)
            &&& whole_value_is(s.hashrate7d, 2_000_000_000_000)
        },
{
    reveal_strlit("0");
    reveal_strlit("1K");
    reveal_strlit("6.2M");
    reveal_strlit("7G");
    reveal_strlit("2T");
    assert(u.hashrate1m@ =~= seq!['0']);
    assert(u.hashrate5m@ =~= seq!['1', 'K']);
    assert(u.hashrate1hr@ =~= seq!['6', '.', '2', 'M']);
    assert(u.hashrate1d@ =~= seq!['7', 'G']);
    assert(u.hashrate7d@ =~= seq!['2', 'T']);
    lemma_trim_noop(seq!['0']);
    assert(hashrate_of(seq!['0']) == Ok::<(Seq<u8>, nat), Seq<char>>((seq![0u8], 0nat)));
    lemma_zero_value();
    lemma_digit_unit('1', 'K');
    lemma_digit_point_digit_unit('6', '2', 'M');
    lemma_digit_unit('7', 'G');
    lemma_digit_unit('2', 'T');
    assert(digit_of('1') == 1 && digit_of('6') == 6 && digit_of('2') == 2 && digit_of('7') == 7);
    lemma_one_digit(1);
    lemma_one_digit(7);
    lemma_one_digit(2);
    assert(seq![6u8, 2u8].drop_last() =~= seq![6u8]);
    lemma_one_digit(6);
    assert(digits_value(seq![6u8, 2u8]) == 62);
    lemma_append_zeros(seq![1u8], 3);
    lemma_append_zeros(seq![6u8, 2u8], 5);
    lemma_append_zeros(seq![7u8], 9);
    lemma_append_zeros(seq![2u8], 12);
    reveal_with_fuel(pow, 13);
    assert(pow(10, 3) == 1_000);
    assert(pow(10, 5) == 100_000);
    assert(pow(10, 9) == 1_000_000_000);
    assert(pow(10, 12) == 1_000_000_000_000);
}

/// A single digit is its own value.
proof fn lemma_one_digit(x: u8)
    ensures
        digits_value(seq![x]) == x,
{
    assert(seq![x].drop_last() =~= Seq::<u8>::empty());
    assert(seq![x].last() == x);
    assert(digits_value(Seq::<u8>::empty()) == 0);
}

} // verus!
