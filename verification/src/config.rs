//! The repository settings file (`.just-shield.conf`): declaring trusted
//! organisations and the cooldown of R10.
//!
//! A deliberately simple line format: one declaration per line, `#` starts a
//! comment.
//!
//! ```text
//! # actions of the partner organisation count as first party
//! trust-org partner-org
//! # references younger than this many days are reported by R10
//! cooldown-days 14
//! ```
use vstd::prelude::*;
use crate::text::{
    chars_of, decimal_value, is_decimal, lines, lines_v, parse_u32, starts_with, starts_with_str,
    string_of, strip_prefix, strip_prefix_str, trim, trim_v, vviews,
};

verus! {

pub const FILE_NAME: &'static str = ".just-shield.conf";

pub struct Config {
    /// Owners (organisations or accounts) whose actions count as first party.
    pub trusted_owners: Vec<String>,
    /// The cooldown of R10 in days, where the file sets one.
    pub cooldown_days: Option<u32>,
}

impl Config {
    pub open spec fn view(&self) -> Seq<Seq<char>> {
        self.trusted_owners.deep_view()
    }
}

impl Default for Config {
    fn default() -> (r: Self)
        ensures
            r.view() == Seq::<Seq<char>>::empty(),
            r.cooldown_days is None,
    {
        let r = Config { trusted_owners: Vec::new(), cooldown_days: None };
        assert(r.view() =~= Seq::<Seq<char>>::empty());
        r
    }
}

/// The owner a line declares trusted: blank lines and comments declare none,
/// and so does every other declaration (kept for later versions).
pub open spec fn trusted_owner_of(line: Seq<char>) -> Option<Seq<char>> {
    let t = trim(line);
    if t.len() == 0 || starts_with(t, seq!['#']) {
        None
    } else {
        match strip_prefix(t, "trust-org"@) {
            Some(rest) => if trim(rest).len() > 0 {
                Some(trim(rest))
            } else {
                None
            },
            None => None,
        }
    }
}

pub open spec fn owners_from(ls: Seq<Seq<char>>, i: int) -> Seq<Seq<char>>
    decreases ls.len() - i,
{
    if i < 0 || i >= ls.len() {
        Seq::empty()
    } else {
        match trusted_owner_of(ls[i]) {
            Some(o) => seq![o] + owners_from(ls, i + 1),
            None => owners_from(ls, i + 1),
        }
    }
}

/// The owners that a settings text declares trusted, in order.
pub open spec fn parse_spec(content: Seq<char>) -> Seq<Seq<char>> {
    owners_from(lines(content), 0)
}

/// The days a line sets: `cooldown-days` and a number that fits in a `u32`.
/// A line with another value sets nothing.
pub open spec fn days_of(line: Seq<char>) -> Option<u32> {
    let t = trim(line);
    if t.len() == 0 || starts_with(t, seq!['#']) {
        None
    } else {
        match strip_prefix(t, "cooldown-days"@) {
            Some(rest) => if is_decimal(trim(rest)) && decimal_value(trim(rest)) <= u32::MAX {
                Some(decimal_value(trim(rest)) as u32)
            } else {
                None
            },
            None => None,
        }
    }
}

/// The days set by the last of the first `n` lines that sets any.
pub open spec fn days_upto(ls: Seq<Seq<char>>, n: int) -> Option<u32>
    decreases n,
{
    if n <= 0 || n > ls.len() {
        None
    } else {
        match days_of(ls[n - 1]) {
            Some(d) => Some(d),
            None => days_upto(ls, n - 1),
        }
    }
}

/// The cooldown a settings text sets: that of its last `cooldown-days` line.
pub open spec fn cooldown_spec(content: Seq<char>) -> Option<u32> {
    days_upto(lines(content), lines(content).len() as int)
}

impl Config {
    /// Reads a settings text.
    pub fn parse(content: &str) -> (r: Config)
        ensures
            r.view() == parse_spec(content@),
            r.cooldown_days == cooldown_spec(content@),
    {
        let cv = chars_of(content);
        let ls = lines_v(&cv);
        let ghost lv = vviews(ls@);
        let mut owners: Vec<String> = Vec::new();
        let mut days: Option<u32> = None;
        let mut i: usize = 0;
        while i < ls.len()
            invariant
                lv == vviews(ls@),
                lv == lines(content@),
                i <= ls@.len(),
                parse_spec(content@) == owners.deep_view() + owners_from(lv, i as int),
                days == days_upto(lv, i as int),
            decreases ls@.len() - i,
        {
            let t = trim_v(&ls[i]);
            proof {
                reveal_strlit("#");
                assert("#"@ =~= seq!['#']);
            }
            if t.len() > 0 && !starts_with_str(&t, "#") {
                match strip_prefix_str(&t, "cooldown-days") {
                    Some(rest) => {
                        let n = trim_v(&rest);
                        match parse_u32(&n) {
                            Some(d) => {
                                days = Some(d);
                            },
                            None => {},
                        }
                    },
                    None => {},
                }
            }
            assert(lv[i as int] == ls@[i as int]@);
            let ghost before = owners.deep_view();
            if t.len() > 0 && !starts_with_str(&t, "#") {
                match strip_prefix_str(&t, "trust-org") {
                    Some(rest) => {
                        let o = trim_v(&rest);
                        if o.len() > 0 {
                            let os = string_of(&o);
                            owners.push(os);
                            assert(owners.deep_view() =~= before.push(os@));
                        }
                    },
                    None => {},
                }
            }
            proof {
                assert(owners_from(lv, i as int) =~= owners.deep_view().skip(before.len() as int)
                    + owners_from(lv, i as int + 1));
            }
            i = i + 1;
        }
        assert(owners.deep_view() + Seq::<Seq<char>>::empty() =~= owners.deep_view());
        Config { trusted_owners: owners, cooldown_days: days }
    }
}

impl Config {
    /// The cooldown a scan uses: the one given on the command line, else the
    /// one this file sets (else the scan's default).
    pub fn cooldown_with(&self, given: Option<u32>) -> (r: Option<u32>)
        ensures
            r == (match given {
                Some(d) => Some(d),
                None => self.cooldown_days,
            }),
    {
        match given {
            Some(d) => Some(d),
            None => self.cooldown_days,
        }
    }
}

} // verus!
