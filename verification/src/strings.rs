//! The user-facing messages, read from a `key = value` properties text.
use vstd::prelude::*;
use vstd::string::StringExecFns;

use crate::text::{
    decimal, lines, lines_spec, push_char, split_once, split_once_spec, starts_with, strip_prefix, trim,
    trim_spec, usize_to_string,
};

verus! {

/// Message templates by key; when a key occurs twice the later line wins.
///
/// The table is a list of entries searched from the end rather than a hash map: with text
/// keys, the standard hash map's specification in the verifier gives no usable facts about
/// lookups, while a list gives the exact last-wins lookup that `raw` promises.
pub struct Strings {
    map: Vec<(String, String)>,
}

/// The entry a properties line defines, if any: blank lines, `#` comments and lines
/// without `=` define none; the key is trimmed and one space after `=` is dropped.
pub open spec fn property_entry(line: Seq<char>) -> Option<(Seq<char>, Seq<char>)> {
    let t = trim_spec(line);
    if t.len() == 0 || t[0] == '#' {
        None
    } else {
        match split_once_spec(line, '=') {
            Some((k, v)) => Some(
                (trim_spec(k), if v.len() > 0 && v[0] == ' ' {
                    v.drop_first()
                } else {
                    v
                }),
            ),
            None => None,
        }
    }
}

/// The entries that the lines define, in order.
pub open spec fn properties(lines: Seq<Seq<char>>) -> Seq<(Seq<char>, Seq<char>)>
    decreases lines.len(),
{
    if lines.len() == 0 {
        seq![]
    } else {
        let rest = properties(lines.drop_last());
        match property_entry(lines.last()) {
            Some(e) => rest.push(e),
            None => rest,
        }
    }
}

/// The value of the last entry with `key`.
pub open spec fn lookup(entries: Seq<(Seq<char>, Seq<char>)>, key: Seq<char>) -> Option<Seq<char>>
    decreases entries.len(),
{
    if entries.len() == 0 {
        None
    } else if entries.last().0 == key {
        Some(entries.last().1)
    } else {
        lookup(entries.drop_last(), key)
    }
}

/// The placeholder `{i}`.
pub open spec fn placeholder(i: nat) -> Seq<char> {
    seq!['{'] + decimal(i) + seq!['}']
}

/// Whether `t` begins with `p`.
pub open spec fn begins_with(t: Seq<char>, p: Seq<char>) -> bool {
    p.len() <= t.len() && t.take(p.len() as int) == p
}

/// The first `k < n` whose placeholder `{k}` begins `t`, if any.
pub open spec fn placeholder_at(t: Seq<char>, n: nat) -> Option<nat>
    decreases n,
{
    if n == 0 {
        None
    } else {
        match placeholder_at(t, (n - 1) as nat) {
            Some(k) => Some(k),
            None => if begins_with(t, placeholder((n - 1) as nat)) {
                Some((n - 1) as nat)
            } else {
                None
            },
        }
    }
}

/// A placeholder found at the start of `t` fits in `t` and is one of the first `n`.
pub proof fn lemma_placeholder_at(t: Seq<char>, n: nat)
    ensures
        placeholder_at(t, n) matches Some(k) ==> k < n && begins_with(t, placeholder(k)),
    decreases n,
{
    if n > 0 {
        lemma_placeholder_at(t, (n - 1) as nat);
    }
}

/// `template` read from left to right, each placeholder `{k}` of it (`k` below the number
/// of arguments) replaced by argument `k` as it is; the arguments are not searched for
/// placeholders.
pub open spec fn fill_template(template: Seq<char>, args: Seq<Seq<char>>) -> Seq<char>
    decreases template.len(),
{
    if template.len() == 0 {
        seq![]
    } else {
        match placeholder_at(template, args.len()) {
            Some(k) => {
                proof {
                    lemma_placeholder_at(template, args.len());
                }
                args[k as int] + fill_template(template.skip(placeholder(k).len() as int), args)
            },
            None => seq![template[0]] + fill_template(template.drop_first(), args),
        }
    }
}

/// Whether the text of `t` from character `i` on begins with `p`.
fn matches_at(t: &str, i: usize, p: &str) -> (b: bool)
    requires
        i <= t@.len(),
    ensures
        b == begins_with(t@.skip(i as int), p@),
{
    let n = t.unicode_len();
    let m = p.unicode_len();
    if m > n - i {
        return false;
    }
    let mut j: usize = 0;
    while j < m
        invariant
            n == t@.len(),
            m == p@.len(),
            i + m <= n,
            j <= m,
            forall|q: int| 0 <= q < j ==> t@[i + q] == p@[q],
        decreases m - j,
    {
        if t.get_char(i + j) != p.get_char(j) {
            proof {
                assert(t@.skip(i as int).take(m as int)[j as int] != p@[j as int]);
            }
            return false;
        }
        j += 1;
    }
    proof {
        assert(t@.skip(i as int).take(m as int) =~= p@);
    }
    true
}

/// The first placeholder among `phs` that begins the text of `t` at character `i`.
fn find_placeholder(t: &str, i: usize, phs: &Vec<String>) -> (r: Option<usize>)
    requires
        i <= t@.len(),
        forall|k: int| 0 <= k < phs@.len() ==> #[trigger] phs@[k]@ == placeholder(k as nat),
    ensures
        r matches Some(k) ==> placeholder_at(t@.skip(i as int), phs@.len()) == Some(k as nat),
        r is None ==> placeholder_at(t@.skip(i as int), phs@.len()) is None,
{
    let mut k: usize = 0;
    while k < phs.len()
        invariant
            i <= t@.len(),
            k <= phs@.len(),
            forall|q: int| 0 <= q < phs@.len() ==> #[trigger] phs@[q]@ == placeholder(q as nat),
            placeholder_at(t@.skip(i as int), k as nat) is None,
        decreases phs@.len() - k,
    {
        if matches_at(t, i, phs[k].as_str()) {
            proof {
                lemma_placeholder_prefix(t@.skip(i as int), (k + 1) as nat, phs@.len());
            }
            return Some(k);
        }
        k += 1;
    }
    None
}

/// Once a placeholder is found among the first `n`, looking among more finds the same.
proof fn lemma_placeholder_prefix(t: Seq<char>, n: nat, m: nat)
    requires
        n <= m,
        placeholder_at(t, n) is Some,
    ensures
        placeholder_at(t, m) == placeholder_at(t, n),
    decreases m - n,
{
    if n < m {
        lemma_placeholder_prefix(t, n, (m - 1) as nat);
    }
}

impl View for Strings {
    type V = Seq<(Seq<char>, Seq<char>)>;

    closed spec fn view(&self) -> Seq<(Seq<char>, Seq<char>)> {
        self.map@.map_values(|p: (String, String)| (p.0@, p.1@))
    }
}

impl Strings {
    /// The text for `key`, or `key` itself when no entry has it.
    pub open spec fn raw_spec(&self, key: Seq<char>) -> Seq<char> {
        match lookup(self@, key) {
            Some(v) => v,
            None => key,
        }
    }

    /// The template for `key` with the arguments filled in.
    pub open spec fn fmt_spec(&self, key: Seq<char>, args: Seq<Seq<char>>) -> Seq<char> {
        fill_template(self.raw_spec(key), args)
    }

    /// Reads the messages from a properties text.
    pub fn get(source: &str) -> (s: Self)
        ensures
            s@ == properties(lines_spec(source@)),
    {
        let ls = lines(source);
        let ghost lv = ls@.map_values(|l: &str| l@);
        let mut map: Vec<(String, String)> = Vec::new();
        let mut i: usize = 0;
        while i < ls.len()
            invariant
                i <= ls@.len(),
                lv == ls@.map_values(|l: &str| l@),
                lv == lines_spec(source@),
                map@.map_values(|p: (String, String)| (p.0@, p.1@)) == properties(lv.take(i as int)),
            decreases ls@.len() - i,
        {
            let line = ls[i];
            let ghost before = map@.map_values(|p: (String, String)| (p.0@, p.1@));
            proof {
                assert(lv.take(i + 1).drop_last() =~= lv.take(i as int));
                assert(lv.take(i + 1).last() == line@);
            }
            let t = trim(line);
            if !(t.unicode_len() == 0 || starts_with(t, '#')) {
                if let Some((k, v)) = split_once(line, '=') {
                    let key = String::from_str(trim(k));
                    let value = match strip_prefix(v, ' ') {
                        Some(rest) => String::from_str(rest),
                        None => String::from_str(v),
                    };
                    map.push((key, value));
                    proof {
                        assert(map@.map_values(|p: (String, String)| (p.0@, p.1@)) =~= before.push(
                            (key@, value@),
                        ));
                    }
                }
            }
            i += 1;
        }
        proof {
            assert(lv.take(i as int) =~= lv);
        }
        Strings { map }
    }

    /// The raw text for `key`, or `key` itself when not found.
    pub fn raw<'a>(&'a self, key: &'a str) -> (r: &'a str)
        ensures
            r@ == self.raw_spec(key@),
    {
        let wanted = String::from_str(key);
        let ghost entries = self@;
        let mut i = self.map.len();
        proof {
            assert(entries.take(i as int) =~= entries);
        }
        while i > 0
            invariant
                i <= self.map@.len(),
                entries == self@,
                wanted@ == key@,
                lookup(entries, key@) == lookup(entries.take(i as int), key@),
            decreases i,
        {
            i -= 1;
            proof {
                assert(entries.take(i + 1).drop_last() =~= entries.take(i as int));
                assert(entries.take(i + 1).last() == entries[i as int]);
            }
            if self.map[i].0 == wanted {
                return self.map[i].1.as_str();
            }
        }
        proof {
            assert(entries.take(0) =~= Seq::<(Seq<char>, Seq<char>)>::empty());
        }
        key
    }

    /// The text for `key` with each placeholder `{0}`, `{1}`, ... of it replaced by the
    /// argument of that number, inserted as it is.
    pub fn fmt(&self, key: &str, args: &[&str]) -> (r: String)
        ensures
            r@ == self.fmt_spec(key@, args@.map_values(|a: &str| a@)),
    {
        let ghost av = args@.map_values(|a: &str| a@);
        let mut phs: Vec<String> = Vec::new();
        let mut k: usize = 0;
        while k < args.len()
            invariant
                k <= args@.len(),
                phs@.len() == k,
                forall|q: int| 0 <= q < k ==> #[trigger] phs@[q]@ == placeholder(q as nat),
            decreases args@.len() - k,
        {
            let mut ph = String::from_str("{");
            let digits = usize_to_string(k);
            ph.append(digits.as_str());
            ph.append("}");
            proof {
                reveal_strlit("{");
                reveal_strlit("}");
                assert(ph@ =~= placeholder(k as nat));
            }
            phs.push(ph);
            k += 1;
        }
        let template = self.raw(key);
        let ghost t = template@;
        let n = template.unicode_len();
        let mut result = String::new();
        let mut i: usize = 0;
        proof {
            assert(t.skip(0) =~= t);
        }
        while i < n
            invariant
                n == t.len(),
                t == template@,
                i <= n,
                av == args@.map_values(|a: &str| a@),
                phs@.len() == args@.len(),
                forall|q: int| 0 <= q < phs@.len() ==> #[trigger] phs@[q]@ == placeholder(q as nat),
                result@ + fill_template(t.skip(i as int), av) == fill_template(t, av),
            decreases n - i,
        {
            let ghost before = result@;
            let ghost rest = t.skip(i as int);
            match find_placeholder(template, i, &phs) {
                Some(k) => {
                    proof {
                        lemma_placeholder_at(rest, av.len());
                        assert(rest.skip(placeholder(k as nat).len() as int) =~= t.skip(
                            i + placeholder(k as nat).len(),
                        ));
                        assert(av[k as int] == args@[k as int]@);
                    }
                    result.append(args[k]);
                    i += phs[k].unicode_len();
                    proof {
                        assert(result@ + fill_template(t.skip(i as int), av) =~= before + fill_template(rest, av));
                    }
                },
                None => {
                    let c = template.get_char(i);
                    push_char(&mut result, c);
                    proof {
                        assert(rest.drop_first() =~= t.skip(i + 1));
                        assert(rest[0] == c);
                    }
                    i += 1;
                    proof {
                        assert(result@ + fill_template(t.skip(i as int), av) =~= before + fill_template(rest, av));
                    }
                },
            }
        }
        proof {
            assert(t.skip(n as int) =~= Seq::<char>::empty());
            assert(result@ =~= fill_template(t, av));
        }
        result
    }
}

} // verus!
