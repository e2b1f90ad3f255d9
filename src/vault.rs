//! The vault service accounts attached to a namespace: accumulation from a
//! raw comma-separated list and from single additions, and their rendering.
use vstd::prelude::*;
use crate::text::{join_with, split_at_char, split_on, views_of};

verus! {

/// A character with the Unicode property White_Space.
pub open spec fn is_white_space(c: char) -> bool {
    ('\u{9}' <= c && c <= '\u{d}') || c == ' ' || c == '\u{85}' || c == '\u{a0}' || c == '\u{1680}'
        || ('\u{2000}' <= c && c <= '\u{200a}') || c == '\u{2028}' || c == '\u{2029}' || c == '\u{202f}'
        || c == '\u{205f}' || c == '\u{3000}'
}

/// `s` without its leading white space.
pub open spec fn trim_start(s: Seq<char>) -> Seq<char>
    decreases s.len(),
{
    if s.len() > 0 && is_white_space(s[0]) {
        trim_start(s.drop_first())
    } else {
        s
    }
}

/// `s` without its trailing white space.
pub open spec fn trim_end(s: Seq<char>) -> Seq<char>
    decreases s.len(),
{
    if s.len() > 0 && is_white_space(s.last()) {
        trim_end(s.drop_last())
    } else {
        s
    }
}

/// `s` with leading and trailing white space removed.
pub open spec fn trimmed(s: Seq<char>) -> Seq<char> {
    trim_end(trim_start(s))
}

/// Relies on `str::trim`: leading and trailing characters with the Unicode
/// property White_Space removed.
#[verifier::external_body]
fn trim_str(s: &str) -> (r: String)
    ensures
        r@ == trimmed(s@),
{
    s.trim().to_string()
}

/// The account name that stands for the implicit default account.
pub open spec fn default_word() -> Seq<char> {
    "default"@
}

/// `accs` fed in order into `v`: the default account sets the flag and is
/// not listed; every other name is appended, repeats included.
pub open spec fn accumulate(v: (bool, Seq<Seq<char>>), accs: Seq<Seq<char>>) -> (bool, Seq<Seq<char>>)
    decreases accs.len(),
{
    if accs.len() == 0 {
        v
    } else {
        let prev = accumulate(v, accs.drop_last());
        if accs.last() == default_word() {
            (true, prev.1)
        } else {
            (prev.0, prev.1.push(accs.last()))
        }
    }
}

/// The rendered account list: empty where there is no default and no
/// account; otherwise the accounts joined with `,`, after `default,` where
/// the default is included (so the default alone renders as `default,`).
pub open spec fn rendered(v: (bool, Seq<Seq<char>>)) -> Seq<char> {
    if !v.0 && v.1.len() == 0 {
        Seq::empty()
    } else if v.0 {
        "default,"@ + join_with(v.1, ',')
    } else {
        join_with(v.1, ',')
    }
}

/// The accounts that the options give: the raw list split at `,` and each
/// piece trimmed, starting without the default; or, with no raw list, the
/// default alone. The additions follow in either case.
pub open spec fn built(raw: Option<Seq<char>>, additions: Seq<Seq<char>>) -> (bool, Seq<Seq<char>>) {
    match raw {
        Some(s) => accumulate(
            accumulate((false, Seq::empty()), split_on(s, ',').map_values(|p: Seq<char>| trimmed(p))),
            additions,
        ),
        None => accumulate((true, Seq::empty()), additions),
    }
}

/// Vault service accounts: whether the default account is included, and the
/// other accounts in the order given.
#[derive(Debug, Clone, PartialEq, Eq)]
pub struct VaultServiceAccounts {
    include_default: bool,
    service_accounts: Vec<String>,
}

impl View for VaultServiceAccounts {
    type V = (bool, Seq<Seq<char>>);

    closed spec fn view(&self) -> (bool, Seq<Seq<char>>) {
        (self.include_default, views_of(self.service_accounts@))
    }
}

impl VaultServiceAccounts {
    /// The default account alone.
    pub fn new() -> (r: VaultServiceAccounts)
        ensures
            r@ == (true, Seq::<Seq<char>>::empty()),
    {
        let r = VaultServiceAccounts { include_default: true, service_accounts: Vec::new() };
        proof {
            assert(views_of(r.service_accounts@) =~= Seq::<Seq<char>>::empty());
        }
        r
    }

    /// No account at all.
    pub fn new_no_default() -> (r: VaultServiceAccounts)
        ensures
            r@ == (false, Seq::<Seq<char>>::empty()),
    {
        let r = VaultServiceAccounts { include_default: false, service_accounts: Vec::new() };
        proof {
            assert(views_of(r.service_accounts@) =~= Seq::<Seq<char>>::empty());
        }
        r
    }

    /// Whether no account other than the default is listed.
    pub fn is_empty(&self) -> (r: bool)
        ensures
            r == (self@.1.len() == 0),
    {
        self.service_accounts.len() == 0
    }

    /// Whether the default account is included.
    pub fn includes_default(&self) -> (r: bool)
        ensures
            r == self@.0,
    {
        self.include_default
    }

    /// Feeds `accounts` in order into the list.
    pub fn extend(&mut self, accounts: Vec<String>)
        ensures
            final(self)@ == accumulate(old(self)@, views_of(accounts@)),
    {
        let ghost accs = views_of(accounts@);
        let ghost v0 = self@;
        let word = String::from_str("default");
        let mut i: usize = 0;
        proof {
            assert(accs.take(0) =~= Seq::<Seq<char>>::empty());
        }
        while i < accounts.len()
            invariant
                accs == views_of(accounts@),
                v0 == old(self)@,
                word@ == default_word(),
                i <= accounts.len(),
                self@ == accumulate(v0, accs.take(i as int)),
            decreases accounts.len() - i,
        {
            proof {
                assert(accs.take(i as int + 1).drop_last() =~= accs.take(i as int));
                assert(accs.take(i as int + 1).last() == accounts@[i as int]@);
            }
            if accounts[i] == word {
                self.include_default = true;
            } else {
                let ghost prev = self.service_accounts@;
                self.service_accounts.push(accounts[i].clone());
                proof {
                    assert(views_of(self.service_accounts@) =~= views_of(prev).push(accounts@[i as int]@));
                }
            }
            i = i + 1;
        }
        proof {
            assert(accs.take(accounts.len() as int) =~= accs);
        }
    }

    /// The accounts as one comma-separated string.
    pub fn service_accounts_string(&self) -> (r: String)
        ensures
            r@ == rendered(self@),
    {
        if self.service_accounts.len() == 0 && !self.include_default {
            return String::new();
        }
        let ghost list = views_of(self.service_accounts@);
        let mut x = String::new();
        let mut i: usize = 0;
        proof {
            reveal_strlit(",");
            assert(list.take(0) =~= Seq::<Seq<char>>::empty());
        }
        while i < self.service_accounts.len()
            invariant
                list == views_of(self.service_accounts@),
                ","@ == seq![','],
                i <= self.service_accounts.len(),
                x@ == join_with(list.take(i as int), ','),
            decreases self.service_accounts.len() - i,
        {
            proof {
                assert(list.take(i as int + 1).drop_last() =~= list.take(i as int));
                assert(list.take(i as int + 1).last() == self.service_accounts@[i as int]@);
            }
            if i > 0 {
                x.append(",");
            } else {
                assert(x@ =~= Seq::<char>::empty());
                assert(list.take(1)[0] == self.service_accounts@[0]@);
            }
            x.append(self.service_accounts[i].as_str());
            proof {
                if i == 0 {
                    assert(x@ =~= list.take(1)[0]);
                }
            }
            i = i + 1;
        }
        proof {
            assert(list.take(self.service_accounts.len() as int) =~= list);
        }
        if self.include_default {
            let mut r = String::from_str("default,");
            r.append(x.as_str());
            r
        } else {
            x
        }
    }
}

impl Default for VaultServiceAccounts {
    fn default() -> (r: VaultServiceAccounts)
        ensures
            r@ == (true, Seq::<Seq<char>>::empty()),
    {
        VaultServiceAccounts::new()
    }
}

/// The accounts that the raw comma-separated option and the repeatable
/// option give together, the raw list first.
pub fn match_vault_service_accounts(raw: Option<&str>, additions: &Vec<String>) -> (r: VaultServiceAccounts)
    ensures
        r@ == built(
            match raw {
                Some(s) => Some(s@),
                None => None,
            },
            views_of(additions@),
        ),
{
    let mut vsas;
    match raw {
        Some(val) => {
            vsas = VaultServiceAccounts::new_no_default();
            let pieces = split_at_char(val, ',');
            let ghost ps = views_of(pieces@);
            let mut trimmed_pieces: Vec<String> = Vec::new();
            let mut i: usize = 0;
            while i < pieces.len()
                invariant
                    ps == views_of(pieces@),
                    i <= pieces.len(),
                    views_of(trimmed_pieces@) == ps.take(i as int).map_values(|p: Seq<char>| trimmed(p)),
                decreases pieces.len() - i,
            {
                let t = trim_str(pieces[i].as_str());
                let ghost prev = trimmed_pieces@;
                trimmed_pieces.push(t);
                proof {
                    assert(views_of(trimmed_pieces@) =~= views_of(prev).push(t@));
                    assert(ps.take(i as int + 1).map_values(|p: Seq<char>| trimmed(p)) =~= ps.take(
                        i as int,
                    ).map_values(|p: Seq<char>| trimmed(p)).push(trimmed(ps[i as int])));
                }
                i = i + 1;
            }
            proof {
                assert(ps.take(pieces.len() as int) =~= ps);
            }
            vsas.extend(trimmed_pieces);
        },
        None => {
            vsas = VaultServiceAccounts::new();
        },
    }
    let mut adds: Vec<String> = Vec::new();
    let mut j: usize = 0;
    while j < additions.len()
        invariant
            j <= additions.len(),
            views_of(adds@) == views_of(additions@).take(j as int),
        decreases additions.len() - j,
    {
        let ghost prev = adds@;
        adds.push(additions[j].clone());
        proof {
            assert(views_of(adds@) =~= views_of(prev).push(additions@[j as int]@));
            assert(views_of(additions@).take(j as int + 1) =~= views_of(additions@).take(j as int).push(
                additions@[j as int]@,
            ));
        }
        j = j + 1;
    }
    proof {
        assert(views_of(additions@).take(additions.len() as int) =~= views_of(additions@));
    }
    vsas.extend(adds);
    vsas
}

} // verus!
