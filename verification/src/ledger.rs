//! The alert ledger: the set of already-notified alert keys, reconstructed
//! each cycle from the lines of a durable append-only store.

use vstd::prelude::*;
use vstd::string::{StrSliceExecFns, StringExecFns};

verus! {

/// A whitespace character as trimming understands it: the Unicode
/// white-space set, the same characters that str::trim removes.
pub open spec fn is_space(c: char) -> bool {
    c == ' ' || c == '\t' || c == '\n' || c == '\u{0B}' || c == '\u{0C}' || c == '\r' || c
        == '\u{85}' || c == '\u{A0}' || c == '\u{1680}' || c == '\u{2000}' || c == '\u{2001}'
        || c == '\u{2002}' || c == '\u{2003}' || c == '\u{2004}' || c == '\u{2005}' || c
        == '\u{2006}' || c == '\u{2007}' || c == '\u{2008}' || c == '\u{2009}' || c
        == '\u{200A}' || c == '\u{2028}' || c == '\u{2029}' || c == '\u{202F}' || c
        == '\u{205F}' || c == '\u{3000}'
}

pub open spec fn trim_front(s: Seq<char>) -> Seq<char>
    decreases s.len(),
{
    if s.len() > 0 && is_space(s[0]) {
        trim_front(s.skip(1))
    } else {
        s
    }
}

pub open spec fn trim_back(s: Seq<char>) -> Seq<char>
    decreases s.len(),
{
    if s.len() > 0 && is_space(s.last()) {
        trim_back(s.drop_last())
    } else {
        s
    }
}

/// A line with its leading and trailing whitespace removed.
pub open spec fn trim_spec(s: Seq<char>) -> Seq<char> {
    trim_back(trim_front(s))
}

/// Remove leading and trailing whitespace from a line.
pub fn trim_str(s: &str) -> (r: String)
    ensures
        r@ == trim_spec(s@),
{
    let n = s.unicode_len();
    let mut a: usize = 0;
    proof {
        assert(s@.subrange(0, n as int) =~= s@);
    }
    while a < n && is_space_exec(s.get_char(a))
        invariant
            a <= n,
            n == s@.len(),
            trim_front(s@) == trim_front(s@.subrange(a as int, n as int)),
        decreases n - a,
    {
        proof {
            assert(s@.subrange(a as int, n as int)[0] == s@[a as int]);
            assert(s@.subrange(a as int, n as int).skip(1) =~= s@.subrange(a as int + 1, n as int));
        }
        a = a + 1;
    }
    proof {
        if a < n {
            assert(s@.subrange(a as int, n as int)[0] == s@[a as int]);
            assert(trim_front(s@) == s@.subrange(a as int, n as int));
        } else {
            assert(s@.subrange(a as int, n as int) =~= Seq::<char>::empty());
        }
    }
    let mut b: usize = n;
    while b > a && is_space_exec(s.get_char(b - 1))
        invariant
            a <= b <= n,
            n == s@.len(),
            trim_back(s@.subrange(a as int, n as int)) == trim_back(s@.subrange(a as int, b as int)),
        decreases b,
    {
        proof {
            assert(s@.subrange(a as int, b as int).last() == s@[b as int - 1]);
            assert(s@.subrange(a as int, b as int).drop_last() =~= s@.subrange(
                a as int,
                b as int - 1,
            ));
        }
        b = b - 1;
    }
    proof {
        if b > a {
            assert(s@.subrange(a as int, b as int).last() == s@[b as int - 1]);
            assert(trim_back(s@.subrange(a as int, b as int)) == s@.subrange(a as int, b as int));
        } else {
            assert(s@.subrange(a as int, b as int) =~= Seq::<char>::empty());
        }
        assert(trim_spec(s@) == s@.subrange(a as int, b as int));
    }
    let piece = s.substring_char(a, b);
    piece.to_owned()
}

fn is_space_exec(c: char) -> (r: bool)
    ensures
        r == is_space(c),
{
    c == ' ' || c == '\t' || c == '\n' || c == '\u{0B}' || c == '\u{0C}' || c == '\r' || c
        == '\u{85}' || c == '\u{A0}' || c == '\u{1680}' || c == '\u{2000}' || c == '\u{2001}'
        || c == '\u{2002}' || c == '\u{2003}' || c == '\u{2004}' || c == '\u{2005}' || c
        == '\u{2006}' || c == '\u{2007}' || c == '\u{2008}' || c == '\u{2009}' || c
        == '\u{200A}' || c == '\u{2028}' || c == '\u{2029}' || c == '\u{202F}' || c
        == '\u{205F}' || c == '\u{3000}'
}

/// The set of alert keys already notified, as reconstructed from the durable
/// store at the start of a cycle. It only ever grows.
pub struct AlertLedger {
    pub keys: Vec<String>,
}

impl AlertLedger {
    /// Whether this key has already been alerted.
    pub open spec fn has(self, k: Seq<char>) -> bool {
        exists|i: int| 0 <= i < self.keys@.len() && self.keys@[i]@ == k
    }

    /// The ledger's contents as a set of keys.
    pub open spec fn seen_set(self) -> Set<Seq<char>> {
        Set::new(|k: Seq<char>| self.has(k))
    }

    /// An empty ledger: nothing alerted yet.
    pub fn new() -> (r: AlertLedger)
        ensures
            forall|k: Seq<char>| !r.has(k),
    {
        AlertLedger { keys: Vec::new() }
    }

    /// Rebuild the ledger from the lines of the durable store: each line is
    /// trimmed, and blank lines are skipped. A key is present exactly when
    /// some line carries it.
    pub fn from_lines(lines: &Vec<String>) -> (r: AlertLedger)
        ensures
            forall|k: Seq<char>|
                r.has(k) <==> (k.len() > 0 && exists|i: int|
                    0 <= i < lines@.len() && trim_spec(#[trigger] lines@[i]@) == k),
    {
        let mut led = AlertLedger { keys: Vec::new() };
        let mut i: usize = 0;
        while i < lines.len()
            invariant
                i <= lines@.len(),
                forall|k: Seq<char>|
                    led.has(k) <==> (k.len() > 0 && exists|j: int|
                        0 <= j < i && trim_spec(#[trigger] lines@[j]@) == k),
            decreases lines@.len() - i,
        {
            let t = trim_str(lines[i].as_str());
            let ghost before = led;
            if t.as_str().unicode_len() > 0 {
                led.record_key(t);
            }
            proof {
                assert forall|k: Seq<char>|
                    led.has(k) <==> (k.len() > 0 && exists|j: int|
                        0 <= j < i + 1 && trim_spec(#[trigger] lines@[j]@) == k) by {
                    if led.has(k) {
                        if !before.has(k) {
                            assert(trim_spec(lines@[i as int]@) == k);
                        }
                    }
                    if k.len() > 0 && exists|j: int|
                        0 <= j < i + 1 && trim_spec(#[trigger] lines@[j]@) == k {
                        let j = choose|j: int|
                            0 <= j < i + 1 && trim_spec(#[trigger] lines@[j]@) == k;
                        if j < i {
                            assert(before.has(k));
                        }
                        assert(led.has(k));
                    }
                }
            }
            i = i + 1;
        }
        led
    }

    /// Whether the ledger holds this key.
    pub fn contains_key(&self, key: &String) -> (r: bool)
        ensures
            r == self.has(key@),
    {
        let mut i: usize = 0;
        while i < self.keys.len()
            invariant
                i <= self.keys@.len(),
                forall|j: int| 0 <= j < i ==> #[trigger] self.keys@[j]@ != key@,
            decreases self.keys@.len() - i,
        {
            if self.keys[i] == *key {
                return true;
            }
            i = i + 1;
        }
        false
    }

    /// Add a key: afterwards the ledger holds exactly what it held before,
    /// plus this key. The ledger never shrinks.
    pub fn record_key(&mut self, key: String)
        ensures
            forall|k: Seq<char>| final(self).has(k) <==> (old(self).has(k) || k == key@),
    {
        let ghost before = self.keys@;
        self.keys.push(key);
        proof {
            assert forall|k: Seq<char>| self.has(k) <==> (old(self).has(k) || k == key@) by {
                if old(self).has(k) {
                    let i = choose|i: int| 0 <= i < before.len() && before[i]@ == k;
                    assert(self.keys@[i]@ == k);
                }
                if k == key@ {
                    assert(self.keys@[before.len() as int]@ == k);
                }
                if self.has(k) {
                    let i = choose|i: int| 0 <= i < self.keys@.len() && self.keys@[i]@ == k;
                    if i < before.len() {
                        assert(before[i]@ == k);
                    }
                }
            }
        }
    }
}

} // verus!
