//! The environment value source: a snapshot of environment variables taken
//! once at construction, with upper-snake key derivation from an item's name
//! and group.

use vstd::prelude::*;
use vstd::string::{StrSliceExecFns, StringExecFns};
use crate::RejectReason;
use crate::RejectView;
use crate::environment_variable::{env_name_valid, is_valid_name};
use crate::item::{ConfigurationItem, with_value};
use crate::value::{OsText, RawValue, coerce_spec};

verus! {

/// What upper-snake-casing an identifier yields ("MyThreshold" becomes
/// "MY_THRESHOLD"); the conversion depends on the characters alone.
pub uninterp spec fn upper_snake_of(s: Seq<char>) -> Seq<char>;

/// Relies on convert_case's `Casing::to_case` with `Case::UpperSnake`: a pure
/// conversion of the characters, splitting words at case boundaries, joining
/// with underscores and uppercasing. An empty string stays empty, and the
/// conversion never introduces `=` (case mapping maps no character to `=`,
/// and the only joiner is `_`), so a key derived from `=`-free parts stays a
/// usable environment variable name.
#[verifier::external_body]
fn to_upper_snake(s: &str) -> (r: String)
    ensures
        r@ == upper_snake_of(s@),
        s@.len() == 0 ==> r@.len() == 0,
        !s@.contains('=') ==> !r@.contains('='),
{
    convert_case::Casing::to_case(&s, convert_case::Case::UpperSnake)
}

/// Concatenation holds a character only where one of the parts does.
proof fn lemma_concat_contains(a: Seq<char>, b: Seq<char>, c: char)
    ensures
        (a + b).contains(c) <==> a.contains(c) || b.contains(c),
{
    if a.contains(c) {
        let i = choose|i: int| 0 <= i < a.len() && a[i] == c;
        assert((a + b)[i] == c);
    }
    if b.contains(c) {
        let i = choose|i: int| 0 <= i < b.len() && b[i] == c;
        assert((a + b)[a.len() + i] == c);
    }
    if (a + b).contains(c) {
        let i = choose|i: int| 0 <= i < (a + b).len() && (a + b)[i] == c;
        if i < a.len() {
            assert(a[i] == c);
        } else {
            assert(b[i - a.len()] == c);
        }
    }
}

/// The environment key for a prefix, an optional group and an item name:
/// `PREFIX_NAME` upper-snaked, with `__` around the upper-snaked group when
/// one is present.
pub open spec fn env_key_spec(prefix: Seq<char>, group: Option<Seq<char>>, name: Seq<char>) -> Seq<
    char,
> {
    match group {
        Some(g) => prefix + seq!['_', '_'] + upper_snake_of(g) + seq!['_', '_'] + upper_snake_of(
            name,
        ),
        None => prefix + seq!['_'] + upper_snake_of(name),
    }
}

/// Derive the environment key for `name` (and `group`, when present) under
/// `prefix`. When the prefix, name and group are free of `=`, the derived
/// key is a usable environment variable name.
pub fn derive_key(prefix: &str, group: Option<&str>, name: &str) -> (r: String)
    ensures
        r@ == env_key_spec(
            prefix@,
            match group {
                Some(g) => Some(g@),
                None => None,
            },
            name@,
        ),
        !prefix@.contains('=') && !name@.contains('=') && (group matches Some(g)
            ==> !g@.contains('=')) ==> env_name_valid(r@),
{
    proof {
        reveal_strlit("_");
        reveal_strlit("__");
        assert("_"@ =~= seq!['_']);
        assert("__"@ =~= seq!['_', '_']);
        assert(!seq!['_'].contains('=')) by {
            assert(forall|i: int| 0 <= i < 1 ==> seq!['_'][i] == '_');
        }
        assert(!seq!['_', '_'].contains('=')) by {
            assert(forall|i: int| 0 <= i < 2 ==> seq!['_', '_'][i] == '_');
        }
    }
    let mut key = String::from_str(prefix);
    match group {
        Some(g) => {
            key.append("__");
            let gs = to_upper_snake(g);
            key.append(gs.as_str());
            key.append("__");
            proof {
                if !prefix@.contains('=') && !name@.contains('=') && !g@.contains('=') {
                    lemma_concat_contains(prefix@, seq!['_', '_'], '=');
                    lemma_concat_contains(prefix@ + seq!['_', '_'], upper_snake_of(g@), '=');
                    lemma_concat_contains(
                        prefix@ + seq!['_', '_'] + upper_snake_of(g@),
                        seq!['_', '_'],
                        '=',
                    );
                }
            }
        },
        None => {
            key.append("_");
            proof {
                if !prefix@.contains('=') {
                    lemma_concat_contains(prefix@, seq!['_'], '=');
                }
            }
        },
    }
    let ns = to_upper_snake(name);
    key.append(ns.as_str());
    proof {
        match group {
            Some(g) => {
                if !prefix@.contains('=') && !name@.contains('=') && !g@.contains('=') {
                    lemma_concat_contains(
                        prefix@ + seq!['_', '_'] + upper_snake_of(g@) + seq!['_', '_'],
                        upper_snake_of(name@),
                        '=',
                    );
                    assert(key@.len() > 0);
                }
            },
            None => {
                if !prefix@.contains('=') && !name@.contains('=') {
                    lemma_concat_contains(prefix@ + seq!['_'], upper_snake_of(name@), '=');
                    assert(key@.len() > 0);
                }
            },
        }
    }
    key
}

/// The first value stored under `key`, if any.
pub open spec fn lookup_spec(vars: Seq<(String, OsText)>, key: Seq<char>) -> Option<OsText>
    decreases vars.len(),
{
    if vars.len() == 0 {
        None
    } else if vars[0].0@ == key {
        Some(vars[0].1)
    } else {
        lookup_spec(vars.drop_first(), key)
    }
}

/// A snapshot of environment variables, taken once at construction: later
/// changes to the process environment do not affect an already-built source.
/// Values that were not valid Unicode are kept as such, so that a present but
/// unusable variable is told apart from an absent one.
#[derive(Debug)]
pub struct Environment {
    pub prefix: String,
    pub vars: Vec<(String, OsText)>,
}

/// The group of an item, seen as a character sequence.
pub open spec fn group_view(item: ConfigurationItem) -> Option<Seq<char>> {
    match item.group {
        Some(g) => Some(g@),
        None => None,
    }
}

/// The key this source derives for `item`.
pub open spec fn env_item_key(env: Environment, item: ConfigurationItem) -> Seq<char> {
    env_key_spec(env.prefix@, group_view(item), item.name@)
}

/// Why the environment source rejects `item`, or `None` when it accepts.
pub open spec fn env_reason(env: Environment, item: ConfigurationItem) -> Option<RejectView> {
    let key = env_item_key(env, item);
    if !env_name_valid(key) {
        Some(RejectView::InvalidKeyName { key })
    } else {
        match lookup_spec(env.vars@, key) {
            None => Some(RejectView::SourceUnavailable { key }),
            Some(OsText::NotUnicode) => Some(RejectView::ValueNotUnicode { key }),
            Some(OsText::Unicode(s)) => match coerce_spec(item.kind, RawValue::Text(s)) {
                Ok(_) => None,
                Err(e) => Some(
                    RejectView::ValueRejected { key, value: RawValue::Text(s), reason: e },
                ),
            },
        }
    }
}

/// The value the environment source supplies when it accepts.
pub open spec fn env_accepted(env: Environment, item: ConfigurationItem) -> RawValue {
    coerce_spec(
        item.kind,
        RawValue::Text(lookup_spec(env.vars@, env_item_key(env, item))->Some_0->Unicode_0),
    )->Ok_0
}

/// The raw environment pairs with every non-Unicode key dropped, order and
/// values kept.
pub open spec fn unicode_entries(pairs: Seq<(OsText, OsText)>) -> Seq<(String, OsText)>
    decreases pairs.len(),
{
    if pairs.len() == 0 {
        Seq::empty()
    } else {
        let rest = unicode_entries(pairs.drop_last());
        match pairs.last().0 {
            OsText::Unicode(k) => rest.push((k, pairs.last().1)),
            OsText::NotUnicode => rest,
        }
    }
}

impl Environment {
    pub fn new(prefix: String, vars: Vec<(String, OsText)>) -> (r: Self)
        ensures
            r.prefix == prefix,
            r.vars == vars,
    {
        Environment { prefix, vars }
    }

    /// Build a snapshot from raw environment pairs as the operating system
    /// hands them out: pairs whose names are not valid Unicode are skipped,
    /// the rest kept in order.
    pub fn from_raw(prefix: String, pairs: Vec<(OsText, OsText)>) -> (r: Self)
        ensures
            r.prefix == prefix,
            r.vars@ == unicode_entries(pairs@),
    {
        let mut vars: Vec<(String, OsText)> = Vec::new();
        let n = pairs.len();
        let mut i: usize = 0;
        proof {
            assert(pairs@.take(0) =~= Seq::<(OsText, OsText)>::empty());
        }
        while i < n
            invariant
                i <= n,
                n == pairs@.len(),
                vars@ == unicode_entries(pairs@.take(i as int)),
            decreases n - i,
        {
            let p = &pairs[i];
            proof {
                assert(pairs@.take(i + 1).drop_last() =~= pairs@.take(i as int));
                assert(pairs@.take(i + 1).last() == pairs@[i as int]);
            }
            match &p.0 {
                OsText::Unicode(k) => {
                    vars.push((k.clone(), p.1.clone()));
                },
                OsText::NotUnicode => {},
            }
            i += 1;
        }
        proof {
            assert(pairs@.take(n as int) =~= pairs@);
        }
        Environment { prefix, vars }
    }

    /// Look a name up in the snapshot; the first entry wins.
    pub fn lookup(&self, name: &str) -> (r: Option<&OsText>)
        ensures
            match r {
                Some(v) => lookup_spec(self.vars@, name@) == Some(*v),
                None => lookup_spec(self.vars@, name@) is None,
            },
    {
        let n = self.vars.len();
        let mut i: usize = 0;
        proof {
            assert(self.vars@.skip(0) =~= self.vars@);
        }
        while i < n
            invariant
                i <= n,
                n == self.vars@.len(),
                lookup_spec(self.vars@, name@) == lookup_spec(self.vars@.skip(i as int), name@),
            decreases n - i,
        {
            let ghost pre = self.vars@.skip(i as int);
            proof {
                assert(pre[0] == self.vars@[i as int]);
                assert(pre.drop_first() =~= self.vars@.skip(i + 1));
            }
            let entry = &self.vars[i];
            if crate::text::str_eq(entry.0.as_str(), name) {
                return Some(&entry.1);
            }
            i += 1;
        }
        proof {
            assert(self.vars@.skip(n as int) =~= Seq::<(String, OsText)>::empty());
        }
        None
    }

    /// Try to resolve `ci` from the snapshot: derive the key, check it, look
    /// it up, and hand a found text to the item for coercion. When the
    /// prefix, item name and group are free of `=`, the derived key is valid
    /// and resolution gets past the key check.
    pub fn try_get(&self, ci: &mut ConfigurationItem) -> (r: Option<RejectReason>)
        ensures
            crate::reason_view(r) == env_reason(*self, *old(ci)),
            r is None ==> *final(ci) == with_value(*old(ci), env_accepted(*self, *old(ci))),
            r is Some ==> *final(ci) == *old(ci),
            !self.prefix@.contains('=') && !old(ci).name@.contains('=') && (old(ci).group matches
                Some(g) ==> !g@.contains('=')) ==> !(r matches Some(
                RejectReason::InvalidKeyName { .. },
            )),
    {
        let key = match &ci.group {
            Some(g) => derive_key(self.prefix.as_str(), Some(g.as_str()), ci.name.as_str()),
            None => derive_key(self.prefix.as_str(), None, ci.name.as_str()),
        };
        if !is_valid_name(key.as_str()) {
            return Some(RejectReason::InvalidKeyName { key });
        }
        match self.lookup(key.as_str()) {
            None => Some(RejectReason::SourceUnavailable { key }),
            Some(OsText::NotUnicode) => Some(RejectReason::ValueNotUnicode { key }),
            Some(OsText::Unicode(s)) => {
                let text = s.clone();
                match ci.try_value(RawValue::Text(text)) {
                    None => None,
                    Some(e) => Some(
                        RejectReason::ValueRejected {
                            key,
                            value: RawValue::Text(s.clone()),
                            reason: e,
                        },
                    ),
                }
            },
        }
    }
}

} // verus!
