use vstd::prelude::*;
use crate::errors::GrpcurlError;
use crate::errors::StatusCode;
use crate::strutil::dec_str;
use crate::strutil::digit_char;
use crate::strutil::str_eq;
use crate::strutil::u64_to_string;

verus! {

/// A point in time: seconds and nanoseconds since the epoch.
#[derive(Debug, Clone, Copy, PartialEq, Eq, Structural)]
pub struct Timestamp {
    pub seconds: i64,
    pub nanos: i32,
}

/// One ledger entry of an account.
#[derive(Debug)]
pub struct Transaction {
    pub account_number: u64,
    pub seq_number: u64,
    pub date: Timestamp,
    pub amount_cents: i32,
    pub desc: String,
}

/// The wire form of an account: its number, type and balance.
#[derive(Debug, Clone, Copy, PartialEq, Eq, Structural)]
pub struct AccountProto {
    pub account_number: u64,
    pub account_type: i32,
    pub balance_cents: i32,
}

/// One account: its standing data, balance and ledger.
#[derive(Debug)]
pub struct Account {
    pub account_number: u64,
    pub account_type: i32,
    pub balance_cents: i32,
    pub transactions: Vec<Transaction>,
}

/// The wire form of an account.
pub open spec fn proto_of(a: Account) -> AccountProto {
    AccountProto {
        account_number: a.account_number,
        account_type: a.account_type,
        balance_cents: a.balance_cents,
    }
}

/// Copy one transaction.
fn clone_transaction(t: &Transaction) -> (r: Transaction)
    ensures
        r == *t,
{
    Transaction {
        account_number: t.account_number,
        seq_number: t.seq_number,
        date: t.date,
        amount_cents: t.amount_cents,
        desc: t.desc.clone(),
    }
}

/// Copy a ledger.
fn clone_transactions(ts: &Vec<Transaction>) -> (r: Vec<Transaction>)
    ensures
        r@ == ts@,
{
    let mut out: Vec<Transaction> = Vec::new();
    let mut i: usize = 0;
    while i < ts.len()
        invariant
            0 <= i <= ts@.len(),
            out@ == ts@.subrange(0, i as int),
        decreases ts@.len() - i,
    {
        out.push(clone_transaction(&ts[i]));
        proof {
            assert(out@ =~= ts@.subrange(0, i + 1));
        }
        i = i + 1;
    }
    proof {
        assert(ts@.subrange(0, ts@.len() as int) =~= ts@);
    }
    out
}

impl Account {
    /// The wire form of this account.
    pub fn to_proto(&self) -> (r: AccountProto)
        ensures
            r == proto_of(*self),
    {
        AccountProto {
            account_number: self.account_number,
            account_type: self.account_type,
            balance_cents: self.balance_cents,
        }
    }

    /// A copy of this account's ledger.
    pub fn get_transactions(&self) -> (r: Vec<Transaction>)
        ensures
            r@ == self.transactions@,
    {
        clone_transactions(&self.transactions)
    }

    /// Apply one transaction: add the amount to the balance and append a
    /// ledger entry, or refuse when the balance would go negative. The new
    /// balance is returned.
    pub fn new_transaction(&mut self, amount_cents: i32, desc: String, now: Timestamp) -> (r:
        Result<i32, GrpcurlError>)
        requires
            old(self).balance_cents + amount_cents <= i32::MAX,
            old(self).transactions@.len() + 1 <= u64::MAX,
        ensures
            old(self).balance_cents + amount_cents >= 0 ==> {
                &&& r matches Ok(b) && b == old(self).balance_cents + amount_cents
                &&& final(self).balance_cents == old(self).balance_cents + amount_cents
                &&& final(self).transactions@.len() == old(self).transactions@.len() + 1
                &&& final(self).transactions@.subrange(0, old(self).transactions@.len() as int)
                    == old(self).transactions@
                &&& final(self).transactions@.last() == (Transaction {
                    account_number: old(self).account_number,
                    seq_number: (old(self).transactions@.len() + 1) as u64,
                    date: now,
                    amount_cents,
                    desc,
                })
                &&& final(self).account_number == old(self).account_number
                &&& final(self).account_type == old(self).account_type
            },
            old(self).balance_cents + amount_cents < 0 ==> {
                &&& (r matches Err(e) && e matches GrpcurlError::GrpcStatus(code, m) && code
                    == StatusCode::FailedPrecondition && m@ == "insufficient funds: cannot withdraw "@
                    + dollars_spec(amount_cents as int) + " when balance is "@ + dollars_spec(
                    old(self).balance_cents as int,
                ))
                &&& *final(self) == *old(self)
            },
    {
        let new_balance: i64 = self.balance_cents as i64 + amount_cents as i64;
        if new_balance < 0 {
            let m = String::from_str("insufficient funds: cannot withdraw ").concat(
                dollars(amount_cents).as_str(),
            ).concat(" when balance is ").concat(dollars(self.balance_cents).as_str());
            proof {
                assert(m@ =~= "insufficient funds: cannot withdraw "@ + dollars_spec(
                    amount_cents as int,
                ) + " when balance is "@ + dollars_spec(old(self).balance_cents as int));
            }
            return Err(GrpcurlError::GrpcStatus(StatusCode::FailedPrecondition, m));
        }
        self.balance_cents = new_balance as i32;
        let seq: u64 = self.transactions.len() as u64 + 1;
        self.transactions.push(
            Transaction {
                account_number: self.account_number,
                seq_number: seq,
                date: now,
                amount_cents,
                desc,
            },
        );
        proof {
            assert(final(self).transactions@.subrange(0, old(self).transactions@.len() as int)
                =~= old(self).transactions@);
        }
        Ok(new_balance as i32)
    }
}

/// The two-digit cents part: zero-padded.
pub open spec fn two_digits(d: int) -> Seq<char> {
    if d < 10 {
        seq!['0', digit_char(d)]
    } else {
        dec_str(d)
    }
}

/// The dollar rendering of an amount in cents: a dollar sign, a minus for
/// negative amounts, the whole dollars, a point, and two cents digits.
pub open spec fn dollars_spec(cents: int) -> Seq<char> {
    let a = if cents < 0 {
        -cents
    } else {
        cents
    };
    seq!['$'] + (if cents < 0 {
        seq!['-']
    } else {
        Seq::empty()
    }) + dec_str(a / 100) + seq!['.'] + two_digits(a % 100)
}

/// Render an amount of cents as dollars, two decimal places.
pub fn dollars(amount_cents: i32) -> (r: String)
    ensures
        r@ == dollars_spec(amount_cents as int),
{
    let a: i64 = if amount_cents < 0 {
        -(amount_cents as i64)
    } else {
        amount_cents as i64
    };
    let sign = if amount_cents < 0 {
        "-"
    } else {
        ""
    };
    let units = u64_to_string((a / 100) as u64);
    let frac: i64 = a % 100;
    let cents_text = if frac < 10 {
        String::from_str("0").concat(u64_to_string(frac as u64).as_str())
    } else {
        u64_to_string(frac as u64)
    };
    let r = String::from_str("$").concat(sign).concat(units.as_str()).concat(".").concat(
        cents_text.as_str(),
    );
    proof {
        reveal_strlit("$");
        reveal_strlit("-");
        reveal_strlit("");
        reveal_strlit(".");
        reveal_strlit("0");
        assert(r@ =~= dollars_spec(amount_cents as int));
    }
    r
}

/// The index of the first customer entry with this name, or the count.
pub open spec fn customer_idx(map: Seq<(String, Vec<u64>)>, name: Seq<char>) -> int
    decreases map.len(),
{
    if map.len() == 0 {
        0
    } else if map[0].0@ == name {
        0
    } else {
        1 + customer_idx(map.subrange(1, map.len() as int), name)
    }
}

proof fn lemma_customer_idx_unique(map: Seq<(String, Vec<u64>)>, name: Seq<char>, i: int)
    requires
        0 <= i <= map.len(),
        forall|j: int| 0 <= j < i ==> (#[trigger] map[j]).0@ != name,
        i < map.len() ==> map[i].0@ == name,
    ensures
        customer_idx(map, name) == i,
    decreases map.len(),
{
    if map.len() == 0 {
    } else if map[0].0@ == name {
        assert(i == 0);
    } else {
        let t = map.subrange(1, map.len() as int);
        assert(i >= 1);
        assert forall|j: int| 0 <= j < i - 1 implies (#[trigger] t[j]).0@ != name by {
            assert(t[j] == map[j + 1]);
        }
        assert(i - 1 < t.len() ==> t[i - 1] == map[i]);
        lemma_customer_idx_unique(t, name, i - 1);
    }
}

/// The index of the first account with this number, or the count.
pub open spec fn account_idx(accounts: Seq<Account>, num: u64) -> int
    decreases accounts.len(),
{
    if accounts.len() == 0 {
        0
    } else if accounts[0].account_number == num {
        0
    } else {
        1 + account_idx(accounts.subrange(1, accounts.len() as int), num)
    }
}

proof fn lemma_account_idx_unique(accounts: Seq<Account>, num: u64, i: int)
    requires
        0 <= i <= accounts.len(),
        forall|j: int| 0 <= j < i ==> (#[trigger] accounts[j]).account_number != num,
        i < accounts.len() ==> accounts[i].account_number == num,
    ensures
        account_idx(accounts, num) == i,
    decreases accounts.len(),
{
    if accounts.len() == 0 {
    } else if accounts[0].account_number == num {
        assert(i == 0);
    } else {
        let t = accounts.subrange(1, accounts.len() as int);
        assert(i >= 1);
        assert forall|j: int| 0 <= j < i - 1 implies (#[trigger] t[j]).account_number != num by {
            assert(t[j] == accounts[j + 1]);
        }
        assert(i - 1 < t.len() ==> t[i - 1] == accounts[i]);
        lemma_account_idx_unique(t, num, i - 1);
    }
}

/// The wire forms of the accounts the given numbers resolve to, among the
/// first `n` numbers, in order; unknown numbers are skipped.
pub open spec fn protos_upto(accounts: Seq<Account>, nums: Seq<u64>, n: int) -> Seq<AccountProto>
    decreases n,
{
    if n <= 0 {
        Seq::empty()
    } else {
        protos_upto(accounts, nums, n - 1) + (if account_idx(accounts, nums[n - 1])
            < accounts.len() {
            seq![proto_of(accounts[account_idx(accounts, nums[n - 1])])]
        } else {
            Seq::empty()
        })
    }
}

/// The in-memory account registry: customers, their account numbers, and
/// the accounts themselves, keyed by unique account numbers.
#[derive(Debug)]
pub struct AccountStore {
    pub account_numbers_by_customer: Vec<(String, Vec<u64>)>,
    pub accounts: Vec<Account>,
    pub account_numbers: Vec<u64>,
    pub customers: Vec<String>,
    pub last_account_num: u64,
}

impl AccountStore {
    /// An empty registry.
    pub fn new() -> (r: AccountStore)
        ensures
            r.account_numbers_by_customer@.len() == 0,
            r.accounts@.len() == 0,
            r.account_numbers@.len() == 0,
            r.customers@.len() == 0,
            r.last_account_num == 0,
    {
        AccountStore {
            account_numbers_by_customer: Vec::new(),
            accounts: Vec::new(),
            account_numbers: Vec::new(),
            customers: Vec::new(),
            last_account_num: 0,
        }
    }

    /// Open a new account for a customer: the next account number is
    /// assigned, an initial-deposit ledger entry is written, and the
    /// customer's registry entries are updated. The new account's wire
    /// form is returned.
    pub fn open_account(
        &mut self,
        customer: &str,
        account_type: i32,
        initial_balance_cents: i32,
        now: Timestamp,
    ) -> (r: AccountProto)
        requires
            old(self).last_account_num < u64::MAX,
        ensures
            final(self).last_account_num == old(self).last_account_num + 1,
            r == (AccountProto {
                account_number: (old(self).last_account_num + 1) as u64,
                account_type,
                balance_cents: initial_balance_cents,
            }),
            final(self).account_numbers@ == old(self).account_numbers@.push(
                (old(self).last_account_num + 1) as u64,
            ),
            final(self).accounts@.len() == old(self).accounts@.len() + 1,
            final(self).accounts@.subrange(0, old(self).accounts@.len() as int) == old(
                self,
            ).accounts@,
            ({
                let a = final(self).accounts@.last();
                &&& a.account_number == old(self).last_account_num + 1
                &&& a.account_type == account_type
                &&& a.balance_cents == initial_balance_cents
                &&& a.transactions@.len() == 1
                &&& a.transactions@[0].seq_number == 1
                &&& a.transactions@[0].amount_cents == initial_balance_cents
                &&& a.transactions@[0].date == now
                &&& a.transactions@[0].desc@ == "initial deposit"@
            }),
            customer_idx(old(self).account_numbers_by_customer@, customer@) < old(
                self,
            ).account_numbers_by_customer@.len() ==> {
                let k = customer_idx(old(self).account_numbers_by_customer@, customer@);
                &&& final(self).customers@ == old(self).customers@
                &&& final(self).account_numbers_by_customer@.len() == old(
                    self,
                ).account_numbers_by_customer@.len()
                &&& final(self).account_numbers_by_customer@[k].0 == old(
                    self,
                ).account_numbers_by_customer@[k].0
                &&& final(self).account_numbers_by_customer@[k].1@ == old(
                    self,
                ).account_numbers_by_customer@[k].1@.push(
                    (old(self).last_account_num + 1) as u64,
                )
                &&& forall|j: int|
                    (0 <= j && j < old(self).account_numbers_by_customer@.len() && j != k)
                        ==> final(self).account_numbers_by_customer@[j] == old(
                        self,
                    ).account_numbers_by_customer@[j]
            },
            customer_idx(old(self).account_numbers_by_customer@, customer@) >= old(
                self,
            ).account_numbers_by_customer@.len() ==> {
                &&& final(self).customers@.len() == old(self).customers@.len() + 1
                &&& final(self).customers@.subrange(0, old(self).customers@.len() as int) == old(
                    self,
                ).customers@
                &&& final(self).customers@.last()@ == customer@
                &&& final(self).account_numbers_by_customer@.len() == old(
                    self,
                ).account_numbers_by_customer@.len() + 1
                &&& final(self).account_numbers_by_customer@.subrange(
                    0,
                    old(self).account_numbers_by_customer@.len() as int,
                ) == old(self).account_numbers_by_customer@
                &&& final(self).account_numbers_by_customer@.last().0@ == customer@
                &&& final(self).account_numbers_by_customer@.last().1@ == seq![
                    (old(self).last_account_num + 1) as u64,
                ]
            },
    {
        let ghost map0 = self.account_numbers_by_customer@;
        let n = self.account_numbers_by_customer.len();
        let mut k: usize = 0;
        while k < n && !str_eq(self.account_numbers_by_customer[k].0.as_str(), customer)
            invariant
                0 <= k <= n,
                n == map0.len(),
                self.account_numbers_by_customer@ == map0,
                self.customers@ == old(self).customers@,
                self.accounts@ == old(self).accounts@,
                self.account_numbers@ == old(self).account_numbers@,
                self.last_account_num == old(self).last_account_num,
                map0 == old(self).account_numbers_by_customer@,
                forall|j: int| 0 <= j < k ==> (#[trigger] map0[j]).0@ != customer@,
            decreases n - k,
        {
            k = k + 1;
        }
        let found: Option<usize> = if k < n {
            Some(k)
        } else {
            None
        };
        proof {
            if k < n {
                lemma_customer_idx_unique(map0, customer@, k as int);
            } else {
                lemma_customer_idx_unique(map0, customer@, map0.len() as int);
            }
        }
        if found.is_none() {
            self.customers.push(customer.to_owned());
        }
        let num: u64 = self.last_account_num + 1;
        self.last_account_num = num;
        self.account_numbers.push(num);
        match found {
            Some(idx) => {
                let mut entry = self.account_numbers_by_customer.remove(idx);
                entry.1.push(num);
                self.account_numbers_by_customer.insert(idx, entry);
                proof {
                    assert(self.account_numbers_by_customer@.len() == map0.len());
                    assert forall|j: int|
                        0 <= j < map0.len() && j != idx as int implies #[trigger] self.account_numbers_by_customer@[j]
                        == map0[j] by {
                        if j < idx as int {
                            assert(map0.remove(idx as int)[j] == map0[j]);
                        } else {
                            assert(map0.remove(idx as int)[j - 1] == map0[j]);
                        }
                    }
                }
            },
            None => {
                let mut nums: Vec<u64> = Vec::new();
                nums.push(num);
                proof {
                    assert(nums@ =~= seq![num]);
                }
                self.account_numbers_by_customer.push((customer.to_owned(), nums));
                proof {
                    assert(self.account_numbers_by_customer@.subrange(0, map0.len() as int)
                        =~= map0);
                    assert(self.customers@.subrange(0, old(self).customers@.len() as int) =~= old(
                        self,
                    ).customers@);
                }
            },
        }
        let mut txns: Vec<Transaction> = Vec::new();
        txns.push(
            Transaction {
                account_number: num,
                seq_number: 1,
                date: now,
                amount_cents: initial_balance_cents,
                desc: String::from_str("initial deposit"),
            },
        );
        let acct = Account {
            account_number: num,
            account_type,
            balance_cents: initial_balance_cents,
            transactions: txns,
        };
        let proto = acct.to_proto();
        self.accounts.push(acct);
        proof {
            assert(final(self).accounts@.subrange(0, old(self).accounts@.len() as int) =~= old(
                self,
            ).accounts@);
        }
        proto
    }

    /// The wire forms of all of one customer's accounts, in the order the
    /// accounts were opened.
    pub fn get_all_accounts(&self, customer: &str) -> (r: Vec<AccountProto>)
        ensures
            ({
                let k = customer_idx(self.account_numbers_by_customer@, customer@);
                if k < self.account_numbers_by_customer@.len() {
                    r@ == protos_upto(
                        self.accounts@,
                        self.account_numbers_by_customer@[k].1@,
                        self.account_numbers_by_customer@[k].1@.len() as int,
                    )
                } else {
                    r@ == Seq::<AccountProto>::empty()
                }
            }),
    {
        let ghost map0 = self.account_numbers_by_customer@;
        let n = self.account_numbers_by_customer.len();
        let mut k: usize = 0;
        while k < n && !str_eq(self.account_numbers_by_customer[k].0.as_str(), customer)
            invariant
                0 <= k <= n,
                n == map0.len(),
                map0 == self.account_numbers_by_customer@,
                forall|j: int| 0 <= j < k ==> (#[trigger] map0[j]).0@ != customer@,
            decreases n - k,
        {
            k = k + 1;
        }
        if k >= n {
            proof {
                lemma_customer_idx_unique(map0, customer@, map0.len() as int);
            }
            return Vec::new();
        }
        let idx = k;
        proof {
            lemma_customer_idx_unique(map0, customer@, k as int);
        }
        let nums = &self.account_numbers_by_customer[idx].1;
        let mut out: Vec<AccountProto> = Vec::new();
        let mut i: usize = 0;
        while i < nums.len()
            invariant
                0 <= i <= nums@.len(),
                0 <= idx < map0.len(),
                map0 == self.account_numbers_by_customer@,
                nums == &map0[idx as int].1,
                customer_idx(map0, customer@) == idx,
                out@ == protos_upto(self.accounts@, nums@, i as int),
            decreases nums@.len() - i,
        {
            let num = nums[i];
            let an = self.accounts.len();
            let mut a: usize = 0;
            while a < an && self.accounts[a].account_number != num
                invariant
                    0 <= a <= an,
                    an == self.accounts@.len(),
                    forall|j: int| 0 <= j < a ==> (#[trigger] self.accounts@[j]).account_number
                        != num,
                decreases an - a,
            {
                a = a + 1;
            }
            if a < an {
                proof {
                    lemma_account_idx_unique(self.accounts@, num, a as int);
                }
                out.push(self.accounts[a].to_proto());
            } else {
                proof {
                    lemma_account_idx_unique(self.accounts@, num, self.accounts@.len() as int);
                }
            }
            proof {
                assert(out@ =~= protos_upto(self.accounts@, nums@, i as int + 1));
            }
            i = i + 1;
        }
        out
    }

    /// A deep copy of the registry, safe to serialize elsewhere.
    pub fn clone_for_save(&self) -> (r: AccountStore)
        ensures
            r.account_numbers_by_customer@.len() == self.account_numbers_by_customer@.len(),
            forall|i: int|
                0 <= i < self.account_numbers_by_customer@.len() ==> (
                #[trigger] r.account_numbers_by_customer@[i]).0@
                    == self.account_numbers_by_customer@[i].0@
                    && r.account_numbers_by_customer@[i].1@
                    == self.account_numbers_by_customer@[i].1@,
            r.accounts@.len() == self.accounts@.len(),
            forall|i: int|
                0 <= i < self.accounts@.len() ==> account_like(
                    (#[trigger] r.accounts@[i]),
                    self.accounts@[i],
                ),
            r.account_numbers@ == self.account_numbers@,
            crate::strutil::views_of(r.customers@) == crate::strutil::views_of(self.customers@),
            r.last_account_num == self.last_account_num,
    {
        let mut map: Vec<(String, Vec<u64>)> = Vec::new();
        let mut i: usize = 0;
        while i < self.account_numbers_by_customer.len()
            invariant
                0 <= i <= self.account_numbers_by_customer@.len(),
                map@.len() == i,
                forall|j: int|
                    0 <= j < i ==> (#[trigger] map@[j]).0@
                        == self.account_numbers_by_customer@[j].0@ && map@[j].1@
                        == self.account_numbers_by_customer@[j].1@,
            decreases self.account_numbers_by_customer@.len() - i,
        {
            let entry = &self.account_numbers_by_customer[i];
            let mut nums: Vec<u64> = Vec::new();
            let mut j: usize = 0;
            while j < entry.1.len()
                invariant
                    0 <= j <= entry.1@.len(),
                    nums@ == entry.1@.subrange(0, j as int),
                decreases entry.1@.len() - j,
            {
                nums.push(entry.1[j]);
                proof {
                    assert(nums@ =~= entry.1@.subrange(0, j + 1));
                }
                j = j + 1;
            }
            proof {
                assert(entry.1@.subrange(0, entry.1@.len() as int) =~= entry.1@);
            }
            map.push((entry.0.clone(), nums));
            i = i + 1;
        }
        let mut accounts: Vec<Account> = Vec::new();
        let mut i2: usize = 0;
        while i2 < self.accounts.len()
            invariant
                0 <= i2 <= self.accounts@.len(),
                accounts@.len() == i2,
                forall|j: int|
                    0 <= j < i2 ==> account_like(
                        (#[trigger] accounts@[j]),
                        self.accounts@[j],
                    ),
            decreases self.accounts@.len() - i2,
        {
            let src = &self.accounts[i2];
            accounts.push(
                Account {
                    account_number: src.account_number,
                    account_type: src.account_type,
                    balance_cents: src.balance_cents,
                    transactions: clone_transactions(&src.transactions),
                },
            );
            i2 = i2 + 1;
        }
        let mut numbers: Vec<u64> = Vec::new();
        let mut i3: usize = 0;
        while i3 < self.account_numbers.len()
            invariant
                0 <= i3 <= self.account_numbers@.len(),
                numbers@ == self.account_numbers@.subrange(0, i3 as int),
            decreases self.account_numbers@.len() - i3,
        {
            numbers.push(self.account_numbers[i3]);
            proof {
                assert(numbers@ =~= self.account_numbers@.subrange(0, i3 + 1));
            }
            i3 = i3 + 1;
        }
        proof {
            assert(self.account_numbers@.subrange(0, self.account_numbers@.len() as int)
                =~= self.account_numbers@);
        }
        let mut customers: Vec<String> = Vec::new();
        let mut i4: usize = 0;
        while i4 < self.customers.len()
            invariant
                0 <= i4 <= self.customers@.len(),
                customers@.len() == i4,
                forall|j: int| 0 <= j < i4 ==> (#[trigger] customers@[j])@ == self.customers@[j]@,
            decreases self.customers@.len() - i4,
        {
            customers.push(self.customers[i4].clone());
            i4 = i4 + 1;
        }
        proof {
            assert(crate::strutil::views_of(customers@) =~= crate::strutil::views_of(
                self.customers@,
            ));
        }
        AccountStore {
            account_numbers_by_customer: map,
            accounts,
            account_numbers: numbers,
            customers,
            last_account_num: self.last_account_num,
        }
    }
}

/// Two accounts with equal standing data and ledgers.
pub open spec fn account_like(a: Account, b: Account) -> bool {
    &&& a.account_number == b.account_number
    &&& a.account_type == b.account_type
    &&& a.balance_cents == b.balance_cents
    &&& a.transactions@ == b.transactions@
}

} // verus!
