//! Command-line option descriptors and the argument scan. Flags take two
//! literal token forms (set and unset); single-value, multi-value and
//! choice-constrained options take either `--name value` or `--name=value`;
//! a literal `--` ends all further scanning; an option name with no
//! following value token is the one fatal error of the whole parse.

use vstd::prelude::*;
use vstd::string::{StrSliceExecFns, StringExecFns};
use crate::text::str_eq;

verus! {

/// A boolean option with one token to set it and one to unset it.
#[derive(Debug)]
pub struct Flag {
    pub name_set: String,
    pub name_unset: String,
    pub help: String,
}

/// A single-value option.
#[derive(Debug)]
pub struct Opt {
    pub name: String,
    pub help: String,
}

/// A multi-value option: every occurrence before `--` delivers a value.
#[derive(Debug)]
pub struct OptMany {
    pub name: String,
    pub help: String,
}

/// A choice-constrained option: scanned like a single-value option, and the
/// delivered value must be one of the declared choices.
#[derive(Debug)]
pub struct Choice {
    pub name: String,
    pub help: String,
    pub choices: Vec<String>,
}

/// A multi-value choice-constrained option: every occurrence before `--`
/// delivers a value, and each must be one of the declared choices.
#[derive(Debug)]
pub struct ChoiceMany {
    pub name: String,
    pub help: String,
    pub choices: Vec<String>,
}

/// The declared command-line interface: ordered descriptors of each sort,
/// each builder handing back the index under which its value comes out of
/// `args`.
#[derive(Debug)]
pub struct CLI {
    pub flag: Vec<Flag>,
    pub opt: Vec<Opt>,
    pub opt_many: Vec<OptMany>,
    pub choice: Vec<Choice>,
    pub choice_many: Vec<ChoiceMany>,
}

/// The one fatal condition of the parse: an option name with no value token
/// after it. It aborts argument parsing entirely; it is not a per-item
/// rejection.
#[derive(Debug, Clone, Copy, PartialEq, Eq, Structural)]
pub enum Error {
    NoValueForOption,
}

/// The outcome of a choice-constrained option: unset, a declared choice, or
/// a value outside the declared choices — a typed outcome per descriptor,
/// not a fatal error.
#[derive(Debug, PartialEq)]
pub enum ChoiceOutcome {
    Unset,
    Selected { value: String },
    NotAChoice { value: String },
}

/// The outcome of a multi-value choice-constrained option: unset, the
/// collected declared choices, or the first collected value that is not a
/// declared choice.
#[derive(Debug, PartialEq)]
pub enum ChoicesOutcome {
    Unset,
    Selected { values: Vec<String> },
    NotAChoice { value: String },
}

/// The values a successful scan delivers, one slot per declared descriptor,
/// indexed by the handle its builder returned.
#[derive(Debug)]
pub struct CliValues {
    pub flags: Vec<Option<bool>>,
    pub opts: Vec<Option<String>>,
    pub opt_manys: Vec<Option<Vec<String>>>,
    pub choices: Vec<ChoiceOutcome>,
    pub choice_manys: Vec<ChoicesOutcome>,
}

impl CliValues {
    /// The value scanned for the flag registered under `h`.
    pub fn flag_value(&self, h: usize) -> (r: Option<bool>)
        requires
            h < self.flags@.len(),
        ensures
            r == self.flags@[h as int],
    {
        self.flags[h]
    }

    /// The value scanned for the single-value option registered under `h`.
    pub fn opt_value(&self, h: usize) -> (r: Option<String>)
        requires
            h < self.opts@.len(),
        ensures
            match r {
                Some(s) => self.opts@[h as int] matches Some(own) && s == own,
                None => self.opts@[h as int] is None,
            },
    {
        match &self.opts[h] {
            Some(s) => Some(s.clone()),
            None => None,
        }
    }

    /// The values collected for the multi-value option registered under `h`.
    pub fn opt_many_value(&self, h: usize) -> (r: &Option<Vec<String>>)
        requires
            h < self.opt_manys@.len(),
        ensures
            *r == self.opt_manys@[h as int],
    {
        &self.opt_manys[h]
    }

    /// The outcome of the choice-constrained option registered under `h`.
    pub fn choice_value(&self, h: usize) -> (r: &ChoiceOutcome)
        requires
            h < self.choices@.len(),
        ensures
            *r == self.choices@[h as int],
    {
        &self.choices[h]
    }

    /// The outcome of the multi-value choice-constrained option registered
    /// under `h`.
    pub fn choice_many_value(&self, h: usize) -> (r: &ChoicesOutcome)
        requires
            h < self.choice_manys@.len(),
        ensures
            *r == self.choice_manys@[h as int],
    {
        &self.choice_manys[h]
    }
}

/// The token that ends all further scanning.
pub open spec fn dashdash() -> Seq<char> {
    seq!['-', '-']
}

/// What scanning the argument list yields for a flag: the last occurrence of
/// either token before any `--` wins; absent both, the flag stays unset.
pub open spec fn flag_scan(
    name_set: Seq<char>,
    name_unset: Seq<char>,
    args: Seq<Seq<char>>,
    i: int,
    cur: Option<bool>,
) -> Option<bool>
    decreases args.len() - i,
{
    if i < 0 || i >= args.len() {
        cur
    } else if args[i] == dashdash() {
        cur
    } else if args[i] == name_set {
        flag_scan(name_set, name_unset, args, i + 1, Some(true))
    } else if args[i] == name_unset {
        flag_scan(name_set, name_unset, args, i + 1, Some(false))
    } else {
        flag_scan(name_set, name_unset, args, i + 1, cur)
    }
}

/// Whether `arg` is the one-token form `name=value`.
pub open spec fn matches_inline(name: Seq<char>, arg: Seq<char>) -> bool {
    arg.len() > name.len() && arg.subrange(0, name.len() as int) == name && arg[name.len() as int]
        == '='
}

/// What scanning the argument list yields for a single-value option: the
/// last value before any `--` wins, whether given as `name value` or as
/// `name=value`; a bare `name` at the end or right before `--` is fatal.
pub open spec fn opt_scan(
    name: Seq<char>,
    args: Seq<Seq<char>>,
    i: int,
    cur: Option<Seq<char>>,
) -> Result<Option<Seq<char>>, Error>
    decreases args.len() - i,
{
    if i < 0 || i >= args.len() {
        Ok(cur)
    } else if args[i] == dashdash() {
        Ok(cur)
    } else if args[i] == name {
        if i + 1 >= args.len() {
            Err(Error::NoValueForOption)
        } else if args[i + 1] == dashdash() {
            Err(Error::NoValueForOption)
        } else {
            opt_scan(name, args, i + 2, Some(args[i + 1]))
        }
    } else if matches_inline(name, args[i]) {
        opt_scan(name, args, i + 1, Some(args[i].skip(name.len() as int + 1)))
    } else {
        opt_scan(name, args, i + 1, cur)
    }
}

/// Law: against the same option descriptor, the two-token form
/// `name value` and the one-token form `name=value` resolve to the same
/// string, namely the value itself. The two requirements only keep either
/// token from being the literal `--` terminator, for which the grammar says
/// scanning stops.
pub proof fn lemma_option_forms_agree(name: Seq<char>, value: Seq<char>)
    requires
        name != dashdash(),
        value != dashdash(),
    ensures
        opt_scan(name, seq![name, value], 0, None) == Ok::<Option<Seq<char>>, Error>(Some(value)),
        opt_scan(name, seq![name + seq!['='] + value], 0, None) == Ok::<Option<Seq<char>>, Error>(
            Some(value),
        ),
{
    let two = seq![name, value];
    assert(two[0] == name);
    assert(two[1] == value);
    assert(opt_scan(name, two, 2, Some(value)) == Ok::<Option<Seq<char>>, Error>(Some(value)));
    let arg = name + seq!['='] + value;
    let one = seq![arg];
    assert(arg.len() == name.len() + 1 + value.len());
    assert(arg[name.len() as int] == '=');
    assert(arg != dashdash()) by {
        if arg == dashdash() {
            assert(dashdash()[0] == '-' && dashdash()[1] == '-');
            assert(name.len() < 2);
            assert(arg[name.len() as int] == '=');
        }
    }
    assert(arg != name);
    assert(matches_inline(name, arg)) by {
        assert(arg.subrange(0, name.len() as int) =~= name);
    }
    assert(arg.skip(name.len() as int + 1) =~= value);
    assert(one[0] == arg);
    assert(opt_scan(name, one, 1, Some(value)) == Ok::<Option<Seq<char>>, Error>(Some(value)));
}

/// The view of an optional string.
pub open spec fn opt_view(o: Option<String>) -> Option<Seq<char>> {
    match o {
        Some(s) => Some(s@),
        None => None,
    }
}

/// What scanning the argument list yields for a multi-value option: every
/// value before `--`, in order, in either token form; a bare `name` at the
/// end or right before `--` is fatal, exactly as for a single-value option.
pub open spec fn opt_scan_many(
    name: Seq<char>,
    args: Seq<Seq<char>>,
    i: int,
    acc: Seq<Seq<char>>,
) -> Result<Seq<Seq<char>>, Error>
    decreases args.len() - i,
{
    if i < 0 || i >= args.len() {
        Ok(acc)
    } else if args[i] == dashdash() {
        Ok(acc)
    } else if args[i] == name {
        if i + 1 >= args.len() {
            Err(Error::NoValueForOption)
        } else if args[i + 1] == dashdash() {
            Err(Error::NoValueForOption)
        } else {
            opt_scan_many(name, args, i + 2, acc.push(args[i + 1]))
        }
    } else if matches_inline(name, args[i]) {
        opt_scan_many(name, args, i + 1, acc.push(args[i].skip(name.len() as int + 1)))
    } else {
        opt_scan_many(name, args, i + 1, acc)
    }
}

/// Whether `v` is one of the declared choices.
pub open spec fn contains_str(choices: Seq<String>, v: Seq<char>) -> bool {
    exists|i: int| 0 <= i < choices.len() && choices[i]@ == v
}

/// The least index of a collected value that is not a declared choice.
pub open spec fn first_not_choice(choices: Seq<String>, vs: Seq<Seq<char>>) -> Option<int>
    decreases vs.len(),
{
    if vs.len() == 0 {
        None
    } else if !contains_str(choices, vs[0]) {
        Some(0)
    } else {
        match first_not_choice(choices, vs.drop_first()) {
            Some(k) => Some(k + 1),
            None => None,
        }
    }
}

proof fn lemma_first_not_choice_at(choices: Seq<String>, vs: Seq<Seq<char>>, k: int)
    requires
        0 <= k < vs.len(),
        forall|j: int| 0 <= j < k ==> contains_str(choices, #[trigger] vs[j]),
        !contains_str(choices, vs[k]),
    ensures
        first_not_choice(choices, vs) == Some(k),
    decreases k,
{
    if k == 0 {
    } else {
        assert(contains_str(choices, vs[0]));
        let t = vs.drop_first();
        assert(forall|j: int| 0 <= j < k - 1 ==> #[trigger] t[j] == vs[j + 1]);
        lemma_first_not_choice_at(choices, t, k - 1);
    }
}

proof fn lemma_first_not_choice_none(choices: Seq<String>, vs: Seq<Seq<char>>)
    requires
        forall|j: int| 0 <= j < vs.len() ==> contains_str(choices, #[trigger] vs[j]),
    ensures
        first_not_choice(choices, vs) is None,
    decreases vs.len(),
{
    if vs.len() > 0 {
        let t = vs.drop_first();
        assert(forall|j: int| 0 <= j < t.len() ==> #[trigger] t[j] == vs[j + 1]);
        lemma_first_not_choice_none(choices, t);
    }
}

/// The collected values of a multi-value delivery: an absent option stands
/// for no values.
pub open spec fn opt_many_view(o: Option<Vec<String>>) -> Seq<Seq<char>> {
    match o {
        Some(l) => l.deep_view(),
        None => Seq::empty(),
    }
}

/// How a choice outcome relates to the scanned value: unset when none was
/// delivered, the value itself when it is a declared choice, and a typed
/// refusal carrying the value when it is not.
pub open spec fn choice_outcome_for(
    choices: Seq<String>,
    scanned: Option<Seq<char>>,
    o: ChoiceOutcome,
) -> bool {
    match scanned {
        None => o is Unset,
        Some(v) => if contains_str(choices, v) {
            o matches ChoiceOutcome::Selected { value } && value@ == v
        } else {
            o matches ChoiceOutcome::NotAChoice { value } && value@ == v
        },
    }
}

/// How a multi-value choice outcome relates to the collected values: unset
/// when none were delivered, all of them when each is a declared choice, and
/// a typed refusal carrying the first value that is not.
pub open spec fn choices_outcome_for(
    choices: Seq<String>,
    vs: Seq<Seq<char>>,
    o: ChoicesOutcome,
) -> bool {
    if vs.len() == 0 {
        o is Unset
    } else {
        match first_not_choice(choices, vs) {
            None => o matches ChoicesOutcome::Selected { values } && values.deep_view() == vs,
            Some(k) => o matches ChoicesOutcome::NotAChoice { value } && value@ == vs[k],
        }
    }
}

/// If `arg` is the one-token form `name=value`, hand the value out.
fn inline_match(name: &str, arg: &str) -> (r: Option<String>)
    ensures
        match r {
            Some(v) => matches_inline(name@, arg@) && v@ == arg@.skip(name@.len() as int + 1),
            None => !matches_inline(name@, arg@),
        },
{
    let nl = name.unicode_len();
    let al = arg.unicode_len();
    if al <= nl {
        return None;
    }
    let mut i: usize = 0;
    while i < nl
        invariant
            i <= nl,
            nl == name@.len(),
            al == arg@.len(),
            al > nl,
            forall|j: int| 0 <= j < i ==> arg@[j] == name@[j],
        decreases nl - i,
    {
        if arg.get_char(i) != name.get_char(i) {
            proof {
                assert(arg@.subrange(0, name@.len() as int)[i as int] != name@[i as int]);
            }
            return None;
        }
        i += 1;
    }
    if arg.get_char(nl) != '=' {
        return None;
    }
    proof {
        assert(arg@.subrange(0, name@.len() as int) =~= name@);
    }
    let v = arg.substring_char(nl + 1, al);
    proof {
        assert(v@ =~= arg@.skip(name@.len() as int + 1));
    }
    Some(String::from_str(v))
}

/// Scan the argument list for one flag.
fn scan_flag(f: &Flag, args: &Vec<String>) -> (r: Option<bool>)
    ensures
        r == flag_scan(f.name_set@, f.name_unset@, args.deep_view(), 0, None),
{
    proof {
        reveal_strlit("--");
        assert("--"@ =~= dashdash());
    }
    let ghost dv = args.deep_view();
    let n = args.len();
    let mut i: usize = 0;
    let mut cur: Option<bool> = None;
    while i < n
        invariant
            i <= n,
            n == args@.len(),
            dv == args.deep_view(),
            flag_scan(f.name_set@, f.name_unset@, dv, 0, None) == flag_scan(
                f.name_set@,
                f.name_unset@,
                dv,
                i as int,
                cur,
            ),
        decreases n - i,
    {
        let a = &args[i];
        proof {
            reveal_strlit("--");
            assert("--"@ =~= dashdash());
            assert(dv[i as int] == a@);
        }
        if str_eq(a.as_str(), "--") {
            return cur;
        } else if str_eq(a.as_str(), f.name_set.as_str()) {
            cur = Some(true);
        } else if str_eq(a.as_str(), f.name_unset.as_str()) {
            cur = Some(false);
        }
        i += 1;
    }
    cur
}

/// Scan the argument list for one single-value or choice-constrained option
/// name.
fn scan_opt(name: &str, args: &Vec<String>) -> (r: Result<Option<String>, Error>)
    ensures
        match r {
            Ok(v) => opt_scan(name@, args.deep_view(), 0, None) == Ok::<Option<Seq<char>>, Error>(
                opt_view(v),
            ),
            Err(e) => opt_scan(name@, args.deep_view(), 0, None) == Err::<
                Option<Seq<char>>,
                Error,
            >(e),
        },
{
    proof {
        reveal_strlit("--");
        assert("--"@ =~= dashdash());
    }
    let ghost dv = args.deep_view();
    let n = args.len();
    let mut i: usize = 0;
    let mut cur: Option<String> = None;
    while i < n
        invariant
            i <= n,
            n == args@.len(),
            dv == args.deep_view(),
            opt_scan(name@, dv, 0, None) == opt_scan(name@, dv, i as int, opt_view(cur)),
        decreases n - i,
    {
        let a = &args[i];
        proof {
            reveal_strlit("--");
            assert("--"@ =~= dashdash());
            assert(dv[i as int] == a@);
        }
        if str_eq(a.as_str(), "--") {
            return Ok(cur);
        } else if str_eq(a.as_str(), name) {
            if i + 1 >= n {
                return Err(Error::NoValueForOption);
            }
            let v2 = &args[i + 1];
            proof {
                assert(dv[i + 1] == v2@);
            }
            if str_eq(v2.as_str(), "--") {
                return Err(Error::NoValueForOption);
            }
            cur = Some(v2.clone());
            i += 2;
        } else {
            match inline_match(name, a.as_str()) {
                Some(v) => {
                    cur = Some(v);
                },
                None => {},
            }
            i += 1;
        }
    }
    Ok(cur)
}

/// Scan the argument list for one multi-value option name, collecting every
/// value before `--` in order.
fn scan_opt_many(name: &str, args: &Vec<String>) -> (r: Result<Vec<String>, Error>)
    ensures
        match r {
            Ok(vs) => opt_scan_many(name@, args.deep_view(), 0, Seq::empty()) == Ok::<
                Seq<Seq<char>>,
                Error,
            >(vs.deep_view()),
            Err(e) => opt_scan_many(name@, args.deep_view(), 0, Seq::empty()) == Err::<
                Seq<Seq<char>>,
                Error,
            >(e),
        },
{
    proof {
        reveal_strlit("--");
        assert("--"@ =~= dashdash());
    }
    let ghost dv = args.deep_view();
    let n = args.len();
    let mut i: usize = 0;
    let mut acc: Vec<String> = Vec::new();
    proof {
        assert(acc.deep_view() =~= Seq::<Seq<char>>::empty());
    }
    while i < n
        invariant
            i <= n,
            n == args@.len(),
            dv == args.deep_view(),
            opt_scan_many(name@, dv, 0, Seq::empty()) == opt_scan_many(
                name@,
                dv,
                i as int,
                acc.deep_view(),
            ),
        decreases n - i,
    {
        let a = &args[i];
        proof {
            reveal_strlit("--");
            assert("--"@ =~= dashdash());
            assert(dv[i as int] == a@);
        }
        if str_eq(a.as_str(), "--") {
            return Ok(acc);
        } else if str_eq(a.as_str(), name) {
            if i + 1 >= n {
                return Err(Error::NoValueForOption);
            }
            let v2 = &args[i + 1];
            proof {
                assert(dv[i + 1] == v2@);
            }
            if str_eq(v2.as_str(), "--") {
                return Err(Error::NoValueForOption);
            }
            let ghost pre = acc.deep_view();
            acc.push(v2.clone());
            proof {
                assert(acc.deep_view() =~= pre.push(v2@));
            }
            i += 2;
        } else {
            match inline_match(name, a.as_str()) {
                Some(v) => {
                    let ghost pre = acc.deep_view();
                    let ghost vv = v@;
                    acc.push(v);
                    proof {
                        assert(acc.deep_view() =~= pre.push(vv));
                    }
                },
                None => {},
            }
            i += 1;
        }
    }
    Ok(acc)
}

/// Whether `v` is one of the declared choices.
fn choice_in(choices: &Vec<String>, v: &str) -> (r: bool)
    ensures
        r == contains_str(choices@, v@),
{
    let n = choices.len();
    let mut i: usize = 0;
    while i < n
        invariant
            i <= n,
            n == choices@.len(),
            forall|j: int| 0 <= j < i ==> (#[trigger] choices@[j])@ != v@,
        decreases n - i,
    {
        let c = &choices[i];
        if str_eq(c.as_str(), v) {
            proof {
                assert(choices@[i as int]@ == v@);
            }
            return true;
        }
        i += 1;
    }
    proof {
        if contains_str(choices@, v@) {
            let j = choose|j: int| 0 <= j < choices@.len() && choices@[j]@ == v@;
            assert(choices@[j]@ != v@);
        }
    }
    false
}

/// Scan the argument list for one choice-constrained option.
fn scan_choice(c: &Choice, args: &Vec<String>) -> (r: Result<ChoiceOutcome, Error>)
    ensures
        match r {
            Ok(o) => opt_scan(c.name@, args.deep_view(), 0, None) matches Ok(cur)
                && choice_outcome_for(c.choices@, cur, o),
            Err(e) => opt_scan(c.name@, args.deep_view(), 0, None) == Err::<
                Option<Seq<char>>,
                Error,
            >(e),
        },
{
    match scan_opt(c.name.as_str(), args) {
        Err(e) => Err(e),
        Ok(None) => Ok(ChoiceOutcome::Unset),
        Ok(Some(v)) => {
            if choice_in(&c.choices, v.as_str()) {
                Ok(ChoiceOutcome::Selected { value: v })
            } else {
                Ok(ChoiceOutcome::NotAChoice { value: v })
            }
        },
    }
}

/// Scan the argument list for one multi-value choice-constrained option.
fn scan_choice_many(c: &ChoiceMany, args: &Vec<String>) -> (r: Result<ChoicesOutcome, Error>)
    ensures
        match r {
            Ok(o) => opt_scan_many(c.name@, args.deep_view(), 0, Seq::empty()) matches Ok(vs)
                && choices_outcome_for(c.choices@, vs, o),
            Err(e) => opt_scan_many(c.name@, args.deep_view(), 0, Seq::empty()) == Err::<
                Seq<Seq<char>>,
                Error,
            >(e),
        },
{
    let vs = match scan_opt_many(c.name.as_str(), args) {
        Ok(vs) => vs,
        Err(e) => {
            return Err(e);
        },
    };
    if vs.len() == 0 {
        return Ok(ChoicesOutcome::Unset);
    }
    let n = vs.len();
    let mut k: usize = 0;
    while k < n
        invariant
            k <= n,
            n == vs@.len(),
            opt_scan_many(c.name@, args.deep_view(), 0, Seq::empty()) == Ok::<
                Seq<Seq<char>>,
                Error,
            >(vs.deep_view()),
            forall|j: int| 0 <= j < k ==> contains_str(c.choices@, #[trigger] vs.deep_view()[j]),
        decreases n - k,
    {
        let v = &vs[k];
        proof {
            assert(vs.deep_view()[k as int] == v@);
        }
        if !choice_in(&c.choices, v.as_str()) {
            proof {
                lemma_first_not_choice_at(c.choices@, vs.deep_view(), k as int);
            }
            return Ok(ChoicesOutcome::NotAChoice { value: v.clone() });
        }
        k += 1;
    }
    proof {
        lemma_first_not_choice_none(c.choices@, vs.deep_view());
    }
    Ok(ChoicesOutcome::Selected { values: vs })
}

impl CLI {
    /// An interface with no descriptors yet.
    pub fn new() -> (r: Self)
        ensures
            r.flag@.len() == 0,
            r.opt@.len() == 0,
            r.opt_many@.len() == 0,
            r.choice@.len() == 0,
            r.choice_many@.len() == 0,
    {
        CLI {
            flag: Vec::new(),
            opt: Vec::new(),
            opt_many: Vec::new(),
            choice: Vec::new(),
            choice_many: Vec::new(),
        }
    }

    /// Declare a flag; the handle indexes into the scanned flag values.
    pub fn flag(&mut self, name_set: &str, name_unset: &str, help: &str) -> (h: usize)
        ensures
            h == old(self).flag@.len(),
            final(self).flag@.len() == old(self).flag@.len() + 1,
            final(self).flag@.subrange(0, h as int) == old(self).flag@,
            final(self).flag@[h as int].name_set@ == name_set@,
            final(self).flag@[h as int].name_unset@ == name_unset@,
            final(self).flag@[h as int].help@ == help@,
            final(self).opt == old(self).opt,
            final(self).opt_many == old(self).opt_many,
            final(self).choice == old(self).choice,
            final(self).choice_many == old(self).choice_many,
    {
        let h = self.flag.len();
        self.flag.push(
            Flag {
                name_set: String::from_str(name_set),
                name_unset: String::from_str(name_unset),
                help: String::from_str(help),
            },
        );
        proof {
            assert(self.flag@.subrange(0, h as int) =~= old(self).flag@);
        }
        h
    }

    /// Declare a single-value option; the handle indexes into the scanned
    /// option values.
    pub fn opt(&mut self, name: &str, help: &str) -> (h: usize)
        ensures
            h == old(self).opt@.len(),
            final(self).opt@.len() == old(self).opt@.len() + 1,
            final(self).opt@.subrange(0, h as int) == old(self).opt@,
            final(self).opt@[h as int].name@ == name@,
            final(self).opt@[h as int].help@ == help@,
            final(self).flag == old(self).flag,
            final(self).opt_many == old(self).opt_many,
            final(self).choice == old(self).choice,
            final(self).choice_many == old(self).choice_many,
    {
        let h = self.opt.len();
        self.opt.push(Opt { name: String::from_str(name), help: String::from_str(help) });
        proof {
            assert(self.opt@.subrange(0, h as int) =~= old(self).opt@);
        }
        h
    }

    /// Declare a multi-value option descriptor.
    pub fn opt_many(&mut self, name: &str, help: &str) -> (h: usize)
        ensures
            h == old(self).opt_many@.len(),
            final(self).opt_many@.len() == old(self).opt_many@.len() + 1,
            final(self).opt_many@.subrange(0, h as int) == old(self).opt_many@,
            final(self).opt_many@[h as int].name@ == name@,
            final(self).opt_many@[h as int].help@ == help@,
            final(self).flag == old(self).flag,
            final(self).opt == old(self).opt,
            final(self).choice == old(self).choice,
            final(self).choice_many == old(self).choice_many,
    {
        let h = self.opt_many.len();
        self.opt_many.push(OptMany { name: String::from_str(name), help: String::from_str(help) });
        proof {
            assert(self.opt_many@.subrange(0, h as int) =~= old(self).opt_many@);
        }
        h
    }

    /// Declare a choice-constrained option descriptor.
    pub fn choice(&mut self, name: &str, help: &str, choices: Vec<String>) -> (h: usize)
        ensures
            h == old(self).choice@.len(),
            final(self).choice@.len() == old(self).choice@.len() + 1,
            final(self).choice@.subrange(0, h as int) == old(self).choice@,
            final(self).choice@[h as int].name@ == name@,
            final(self).choice@[h as int].help@ == help@,
            final(self).choice@[h as int].choices == choices,
            final(self).flag == old(self).flag,
            final(self).opt == old(self).opt,
            final(self).opt_many == old(self).opt_many,
            final(self).choice_many == old(self).choice_many,
    {
        let h = self.choice.len();
        self.choice.push(
            Choice { name: String::from_str(name), help: String::from_str(help), choices },
        );
        proof {
            assert(self.choice@.subrange(0, h as int) =~= old(self).choice@);
        }
        h
    }

    /// Declare a multi-value choice-constrained option descriptor.
    pub fn choice_many(&mut self, name: &str, help: &str, choices: Vec<String>) -> (h: usize)
        ensures
            h == old(self).choice_many@.len(),
            final(self).choice_many@.len() == old(self).choice_many@.len() + 1,
            final(self).choice_many@.subrange(0, h as int) == old(self).choice_many@,
            final(self).choice_many@[h as int].name@ == name@,
            final(self).choice_many@[h as int].help@ == help@,
            final(self).choice_many@[h as int].choices == choices,
            final(self).flag == old(self).flag,
            final(self).opt == old(self).opt,
            final(self).opt_many == old(self).opt_many,
            final(self).choice == old(self).choice,
    {
        let h = self.choice_many.len();
        self.choice_many.push(
            ChoiceMany { name: String::from_str(name), help: String::from_str(help), choices },
        );
        proof {
            assert(self.choice_many@.subrange(0, h as int) =~= old(self).choice_many@);
        }
        h
    }

    /// Scan the argument list against every declared descriptor. Either the
    /// whole scan succeeds and every descriptor's slot in the returned values
    /// carries its resolution, or a grammar violation in any option scan
    /// aborts the parse with the one fatal error.
    pub fn args(self, args: &Vec<String>) -> (r: Result<CliValues, Error>)
        ensures
            (r is Err) <==> ((exists|j: int|
                0 <= j < self.opt@.len() && opt_scan(
                    (#[trigger] self.opt@[j]).name@,
                    args.deep_view(),
                    0,
                    None,
                ) is Err) || (exists|j: int|
                0 <= j < self.opt_many@.len() && opt_scan_many(
                    (#[trigger] self.opt_many@[j]).name@,
                    args.deep_view(),
                    0,
                    Seq::empty(),
                ) is Err) || (exists|j: int|
                0 <= j < self.choice@.len() && opt_scan(
                    (#[trigger] self.choice@[j]).name@,
                    args.deep_view(),
                    0,
                    None,
                ) is Err) || (exists|j: int|
                0 <= j < self.choice_many@.len() && opt_scan_many(
                    (#[trigger] self.choice_many@[j]).name@,
                    args.deep_view(),
                    0,
                    Seq::empty(),
                ) is Err)),
            r matches Ok(values) ==> {
                &&& values.flags@.len() == self.flag@.len()
                &&& (forall|j: int|
                    0 <= j < self.flag@.len() ==> values.flags@[j] == flag_scan(
                        (#[trigger] self.flag@[j]).name_set@,
                        self.flag@[j].name_unset@,
                        args.deep_view(),
                        0,
                        None,
                    ))
                &&& values.opts@.len() == self.opt@.len()
                &&& (forall|j: int|
                    0 <= j < self.opt@.len() ==> opt_scan(
                        (#[trigger] self.opt@[j]).name@,
                        args.deep_view(),
                        0,
                        None,
                    ) == Ok::<Option<Seq<char>>, Error>(opt_view(values.opts@[j])))
                &&& values.opt_manys@.len() == self.opt_many@.len()
                &&& (forall|j: int|
                    0 <= j < self.opt_many@.len() ==> (opt_scan_many(
                        (#[trigger] self.opt_many@[j]).name@,
                        args.deep_view(),
                        0,
                        Seq::empty(),
                    ) == Ok::<Seq<Seq<char>>, Error>(opt_many_view(values.opt_manys@[j])) && (
                    values.opt_manys@[j] matches Some(l) ==> l@.len() > 0)))
                &&& values.choices@.len() == self.choice@.len()
                &&& (forall|j: int|
                    0 <= j < self.choice@.len() ==> (opt_scan(
                        (#[trigger] self.choice@[j]).name@,
                        args.deep_view(),
                        0,
                        None,
                    ) matches Ok(cur) && choice_outcome_for(
                        self.choice@[j].choices@,
                        cur,
                        values.choices@[j],
                    )))
                &&& values.choice_manys@.len() == self.choice_many@.len()
                &&& (forall|j: int|
                    0 <= j < self.choice_many@.len() ==> (opt_scan_many(
                        (#[trigger] self.choice_many@[j]).name@,
                        args.deep_view(),
                        0,
                        Seq::empty(),
                    ) matches Ok(vs) && choices_outcome_for(
                        self.choice_many@[j].choices@,
                        vs,
                        values.choice_manys@[j],
                    )))
            },
    {
        let mut flags: Vec<Option<bool>> = Vec::new();
        let nf = self.flag.len();
        let mut fi: usize = 0;
        while fi < nf
            invariant
                fi <= nf,
                nf == self.flag@.len(),
                flags@.len() == fi,
                forall|j: int|
                    0 <= j < fi ==> flags@[j] == flag_scan(
                        (#[trigger] self.flag@[j]).name_set@,
                        self.flag@[j].name_unset@,
                        args.deep_view(),
                        0,
                        None,
                    ),
            decreases nf - fi,
        {
            let v = scan_flag(&self.flag[fi], args);
            flags.push(v);
            fi += 1;
        }
        let mut opts: Vec<Option<String>> = Vec::new();
        let no = self.opt.len();
        let mut oi: usize = 0;
        while oi < no
            invariant
                oi <= no,
                no == self.opt@.len(),
                opts@.len() == oi,
                forall|j: int|
                    0 <= j < oi ==> opt_scan(
                        (#[trigger] self.opt@[j]).name@,
                        args.deep_view(),
                        0,
                        None,
                    ) == Ok::<Option<Seq<char>>, Error>(opt_view(opts@[j])),
            decreases no - oi,
        {
            let o = &self.opt[oi];
            match scan_opt(o.name.as_str(), args) {
                Ok(v) => {
                    opts.push(v);
                },
                Err(e) => {
                    return Err(e);
                },
            }
            oi += 1;
        }
        let mut opt_manys: Vec<Option<Vec<String>>> = Vec::new();
        let nm = self.opt_many.len();
        let mut mi: usize = 0;
        while mi < nm
            invariant
                mi <= nm,
                nm == self.opt_many@.len(),
                opt_manys@.len() == mi,
                forall|j: int|
                    0 <= j < mi ==> (opt_scan_many(
                        (#[trigger] self.opt_many@[j]).name@,
                        args.deep_view(),
                        0,
                        Seq::empty(),
                    ) == Ok::<Seq<Seq<char>>, Error>(opt_many_view(opt_manys@[j])) && (
                    opt_manys@[j] matches Some(l) ==> l@.len() > 0)),
            decreases nm - mi,
        {
            let om = &self.opt_many[mi];
            match scan_opt_many(om.name.as_str(), args) {
                Ok(vs) => {
                    if vs.len() == 0 {
                        proof {
                            assert(vs.deep_view() =~= Seq::<Seq<char>>::empty());
                        }
                        opt_manys.push(None);
                    } else {
                        opt_manys.push(Some(vs));
                    }
                },
                Err(e) => {
                    return Err(e);
                },
            }
            mi += 1;
        }
        let mut choices: Vec<ChoiceOutcome> = Vec::new();
        let nc = self.choice.len();
        let mut ci: usize = 0;
        while ci < nc
            invariant
                ci <= nc,
                nc == self.choice@.len(),
                choices@.len() == ci,
                forall|j: int|
                    0 <= j < ci ==> (opt_scan(
                        (#[trigger] self.choice@[j]).name@,
                        args.deep_view(),
                        0,
                        None,
                    ) matches Ok(cur) && choice_outcome_for(
                        self.choice@[j].choices@,
                        cur,
                        choices@[j],
                    )),
            decreases nc - ci,
        {
            match scan_choice(&self.choice[ci], args) {
                Ok(o) => {
                    choices.push(o);
                },
                Err(e) => {
                    return Err(e);
                },
            }
            ci += 1;
        }
        let mut choice_manys: Vec<ChoicesOutcome> = Vec::new();
        let ncm = self.choice_many.len();
        let mut cmi: usize = 0;
        while cmi < ncm
            invariant
                cmi <= ncm,
                ncm == self.choice_many@.len(),
                choice_manys@.len() == cmi,
                forall|j: int|
                    0 <= j < cmi ==> (opt_scan_many(
                        (#[trigger] self.choice_many@[j]).name@,
                        args.deep_view(),
                        0,
                        Seq::empty(),
                    ) matches Ok(vs) && choices_outcome_for(
                        self.choice_many@[j].choices@,
                        vs,
                        choice_manys@[j],
                    )),
            decreases ncm - cmi,
        {
            match scan_choice_many(&self.choice_many[cmi], args) {
                Ok(o) => {
                    choice_manys.push(o);
                },
                Err(e) => {
                    return Err(e);
                },
            }
            cmi += 1;
        }
        Ok(CliValues { flags, opts, opt_manys, choices, choice_manys })
    }
}

/// Build an empty command-line interface.
pub fn new() -> (r: CLI)
    ensures
        r.flag@.len() == 0,
        r.opt@.len() == 0,
        r.opt_many@.len() == 0,
        r.choice@.len() == 0,
        r.choice_many@.len() == 0,
{
    CLI::new()
}

} // verus!
