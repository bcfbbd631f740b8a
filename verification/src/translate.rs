//! Translation lookup with language fallback, and `%{var}` placeholder
//! substitution in translated strings.

use vstd::prelude::*;
use vstd::string::*;

use crate::text::{push_char, str_eq};

verus! {

/// Where a site's translation files live, and which language is the
/// fallback.
#[derive(Debug, Clone)]
pub struct Translator {
    pub translations_dir: String,
    pub default_lang: String,
}

impl Translator {
    /// Translations live under `i18n/` inside the site directory.
    pub fn new(site_dir: &str, default_lang: &str) -> (r: Translator)
        ensures
            r.translations_dir@ == site_dir@ + "/i18n"@,
            r.default_lang@ == default_lang@,
    {
        let mut dir = site_dir.to_owned();
        dir.append("/i18n");
        Translator { translations_dir: dir, default_lang: default_lang.to_owned() }
    }

    /// The language used when a lookup names none.
    pub fn default_lang(&self) -> (r: &str)
        ensures
            r@ == self.default_lang@,
    {
        self.default_lang.as_str()
    }
}

/// `s` with every non-overlapping occurrence of `pat` replaced by `rep`,
/// scanning left to right. An empty pattern replaces nothing.
pub open spec fn replaced(s: Seq<char>, pat: Seq<char>, rep: Seq<char>) -> Seq<char>
    decreases s.len(),
{
    if pat.len() == 0 || s.len() < pat.len() {
        s
    } else if s.subrange(0, pat.len() as int) == pat {
        rep + replaced(s.skip(pat.len() as int), pat, rep)
    } else {
        seq![s.first()] + replaced(s.drop_first(), pat, rep)
    }
}

/// Whether `pat` occurs in `s` starting at `i`.
fn matches_at(s: &str, i: usize, pat: &str) -> (r: bool)
    requires
        i <= s@.len(),
    ensures
        r == (i + pat@.len() <= s@.len() && s@.subrange(i as int, i + pat@.len()) == pat@),
{
    let slen = s.unicode_len();
    let plen = pat.unicode_len();
    if plen > slen - i {
        return false;
    }
    let mut j: usize = 0;
    while j < plen
        invariant
            j <= plen,
            plen == pat@.len(),
            slen == s@.len(),
            i + plen <= slen,
            forall|k: int| 0 <= k < j ==> s@[i + k] == pat@[k],
        decreases plen - j,
    {
        if s.get_char(i + j) != pat.get_char(j) {
            proof {
                if s@.subrange(i as int, i + pat@.len()) == pat@ {
                    assert(s@.subrange(i as int, i + pat@.len())[j as int] == pat@[j as int]);
                }
            }
            return false;
        }
        j = j + 1;
    }
    proof {
        assert(s@.subrange(i as int, i + pat@.len()) =~= pat@);
    }
    true
}

/// Replace every occurrence of `pat` in `s` by `rep`, left to right,
/// without rescanning replacements.
pub fn replace_all(s: &str, pat: &str, rep: &str) -> (r: String)
    ensures
        r@ == replaced(s@, pat@, rep@),
{
    let slen = s.unicode_len();
    let plen = pat.unicode_len();
    if plen == 0 {
        return s.to_owned();
    }
    let mut out = String::new();
    let mut i: usize = 0;
    proof {
        assert(s@.skip(0) =~= s@);
    }
    while i < slen
        invariant
            i <= slen,
            slen == s@.len(),
            plen == pat@.len(),
            plen > 0,
            out@ + replaced(s@.skip(i as int), pat@, rep@) == replaced(s@, pat@, rep@),
        decreases slen - i,
    {
        let ghost rest = s@.skip(i as int);
        if matches_at(s, i, pat) {
            out.append(rep);
            proof {
                assert(rest.subrange(0, plen as int) =~= s@.subrange(i as int, i + plen));
                assert(rest.skip(plen as int) =~= s@.skip(i + plen));
                assert(out@ + replaced(s@.skip(i + plen), pat@, rep@) =~= replaced(
                    s@,
                    pat@,
                    rep@,
                ));
            }
            i = i + plen;
        } else {
            let c = s.get_char(i);
            push_char(&mut out, c);
            proof {
                if rest.len() >= plen {
                    assert(rest.subrange(0, plen as int) =~= s@.subrange(i as int, i + plen));
                }
                assert(rest.first() == s@[i as int]);
                assert(rest.drop_first() =~= s@.skip(i + 1));
                assert(out@ =~= out@.drop_last() + seq![c]);
                assert(out@ + replaced(s@.skip(i + 1), pat@, rep@) =~= replaced(s@, pat@, rep@));
            }
            i = i + 1;
        }
    }
    proof {
        assert(s@.skip(slen as int) =~= Seq::<char>::empty());
        assert(out@ =~= out@ + Seq::<char>::empty());
    }
    out
}

/// The mathematical value of a key/value list.
pub open spec fn pairs_model(ps: Seq<(String, String)>) -> Seq<(Seq<char>, Seq<char>)> {
    ps.map_values(|p: (String, String)| (p.0@, p.1@))
}

/// First-match lookup in a key/value list.
pub open spec fn kv_lookup(m: Seq<(Seq<char>, Seq<char>)>, k: Seq<char>) -> Option<Seq<char>>
    decreases m.len(),
{
    if m.len() == 0 {
        None
    } else if m.first().0 == k {
        Some(m.first().1)
    } else {
        kv_lookup(m.drop_first(), k)
    }
}

/// The mathematical value of a language table.
pub open spec fn langs_model(ts: Seq<(String, Vec<(String, String)>)>) -> Seq<
    (Seq<char>, Seq<(Seq<char>, Seq<char>)>),
> {
    ts.map_values(|t: (String, Vec<(String, String)>)| (t.0@, pairs_model(t.1@)))
}

/// First-match lookup of a language's table.
pub open spec fn lang_lookup(
    m: Seq<(Seq<char>, Seq<(Seq<char>, Seq<char>)>)>,
    k: Seq<char>,
) -> Option<Seq<(Seq<char>, Seq<char>)>>
    decreases m.len(),
{
    if m.len() == 0 {
        None
    } else if m.first().0 == k {
        Some(m.first().1)
    } else {
        lang_lookup(m.drop_first(), k)
    }
}

/// A translation lookup falls back to the key itself when the language or
/// the key is unknown.
pub open spec fn spec_translate(
    m: Seq<(Seq<char>, Seq<(Seq<char>, Seq<char>)>)>,
    lang: Seq<char>,
    key: Seq<char>,
) -> Seq<char> {
    match lang_lookup(m, lang) {
        Some(table) => match kv_lookup(table, key) {
            Some(v) => v,
            None => key,
        },
        None => key,
    }
}

/// Look `key` up in `lang`'s table, returning the key itself when either
/// is missing.
pub fn translate(
    translations: &Vec<(String, Vec<(String, String)>)>,
    lang: &str,
    key: &str,
) -> (r: String)
    ensures
        r@ == spec_translate(langs_model(translations@), lang@, key@),
{
    let ghost m = langs_model(translations@);
    let n = translations.len();
    let mut i: usize = 0;
    while i < n
        invariant
            i <= n,
            n == translations@.len(),
            m == langs_model(translations@),
            m.len() == n,
            forall|j: int| 0 <= j < i ==> (#[trigger] m[j]).0 != lang@,
        decreases n - i,
    {
        if str_eq(translations[i].0.as_str(), lang) {
            proof {
                lemma_lang_lookup_skip(m, lang@, i as int);
                assert(m.skip(i as int).first() == m[i as int]);
                assert(m[i as int] == (translations@[i as int].0@, pairs_model(
                    translations@[i as int].1@,
                )));
            }
            let table = &translations[i].1;
            let ghost tm = pairs_model(table@);
            let tn = table.len();
            let mut t: usize = 0;
            while t < tn
                invariant
                    t <= tn,
                    tn == table@.len(),
                    tm == pairs_model(table@),
                    tm.len() == tn,
                    m == langs_model(translations@),
                    lang_lookup(m, lang@) == Some(tm),
                    forall|j: int| 0 <= j < t ==> (#[trigger] tm[j]).0 != key@,
                decreases tn - t,
            {
                if str_eq(table[t].0.as_str(), key) {
                    proof {
                        lemma_kv_lookup_skip(tm, key@, t as int);
                        assert(tm.skip(t as int).first() == tm[t as int]);
                        assert(tm[t as int] == (table@[t as int].0@, table@[t as int].1@));
                    }
                    return table[t].1.clone();
                }
                t = t + 1;
            }
            proof {
                lemma_kv_lookup_skip(tm, key@, tn as int);
                assert(tm.skip(tn as int) =~= Seq::<(Seq<char>, Seq<char>)>::empty());
            }
            return key.to_owned();
        }
        i = i + 1;
    }
    proof {
        lemma_lang_lookup_skip(m, lang@, n as int);
        assert(m.skip(n as int) =~= Seq::<(Seq<char>, Seq<(Seq<char>, Seq<char>)>)>::empty());
    }
    key.to_owned()
}

proof fn lemma_kv_lookup_skip(m: Seq<(Seq<char>, Seq<char>)>, k: Seq<char>, i: int)
    requires
        0 <= i <= m.len(),
        forall|j: int| 0 <= j < i ==> (#[trigger] m[j]).0 != k,
    ensures
        kv_lookup(m, k) == kv_lookup(m.skip(i), k),
    decreases i,
{
    if i == 0 {
        assert(m.skip(0) =~= m);
    } else {
        assert(m.first().0 != k);
        lemma_kv_lookup_skip(m.drop_first(), k, i - 1);
        assert(m.drop_first().skip(i - 1) =~= m.skip(i));
    }
}

proof fn lemma_lang_lookup_skip(
    m: Seq<(Seq<char>, Seq<(Seq<char>, Seq<char>)>)>,
    k: Seq<char>,
    i: int,
)
    requires
        0 <= i <= m.len(),
        forall|j: int| 0 <= j < i ==> (#[trigger] m[j]).0 != k,
    ensures
        lang_lookup(m, k) == lang_lookup(m.skip(i), k),
    decreases i,
{
    if i == 0 {
        assert(m.skip(0) =~= m);
    } else {
        assert(m.first().0 != k);
        lemma_lang_lookup_skip(m.drop_first(), k, i - 1);
        assert(m.drop_first().skip(i - 1) =~= m.skip(i));
    }
}

/// The `%{name}` placeholder of an argument name.
pub open spec fn spec_placeholder(name: Seq<char>) -> Seq<char> {
    "%{"@ + name + "}"@
}

/// A translated string with each argument's placeholder substituted, in
/// argument order.
pub open spec fn substituted(s: Seq<char>, args: Seq<(Seq<char>, Seq<char>)>) -> Seq<char>
    decreases args.len(),
{
    if args.len() == 0 {
        s
    } else {
        substituted(
            replaced(s, spec_placeholder(args.first().0), args.first().1),
            args.drop_first(),
        )
    }
}

/// Substitute every `%{name}` placeholder named by `args`, in order.
pub fn substitute_args(s: &str, args: &Vec<(String, String)>) -> (r: String)
    ensures
        r@ == substituted(s@, pairs_model(args@)),
{
    let ghost am = pairs_model(args@);
    let mut cur = s.to_owned();
    let mut i: usize = 0;
    proof {
        assert(am.skip(0) =~= am);
    }
    while i < args.len()
        invariant
            i <= args@.len(),
            am == pairs_model(args@),
            am.len() == args@.len(),
            substituted(cur@, am.skip(i as int)) == substituted(s@, am),
        decreases args@.len() - i,
    {
        let mut pattern = "%{".to_owned();
        pattern.append(args[i].0.as_str());
        pattern.append("}");
        let next = replace_all(cur.as_str(), pattern.as_str(), args[i].1.as_str());
        proof {
            assert(am.skip(i as int).first() == am[i as int]);
            assert(am.skip(i as int).drop_first() =~= am.skip(i + 1));
            assert(am[i as int] == (args@[i as int].0@, args@[i as int].1@));
            assert(pattern@ == spec_placeholder(am[i as int].0));
        }
        cur = next;
        i = i + 1;
    }
    proof {
        assert(am.skip(args@.len() as int) =~= Seq::<(Seq<char>, Seq<char>)>::empty());
    }
    cur
}

} // verus!
