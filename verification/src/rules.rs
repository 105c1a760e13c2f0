//! The merchant keyword rule engine: a transaction takes the category of
//! the first enabled rule of its kind whose keyword (ignoring case) occurs
//! in its merchant or goods text.
use vstd::prelude::*;

use crate::importer::or_empty;
use crate::models::{opt_view, Rule, RuleInput, RuleView};
use crate::text::{chars_of, contains, contains_exec, contains_str, occurs_at, str_eq};

verus! {

/// What `str::to_lowercase` gives for a string (Unicode lowercase mapping).
pub uninterp spec fn lowercase(s: Seq<char>) -> Seq<char>;

/// `str::to_lowercase`: the string mapped to lowercase by the Unicode
/// tables (a character may map to more than one, and final sigma depends
/// on its neighbours); every character gives at least one, so the result
/// is empty exactly when the string is. The mapping itself is not
/// stated: it is named `lowercase`.
#[verifier::external_body]
pub(crate) fn to_lowercase(s: &str) -> (r: String)
    ensures
        r@ == lowercase(s@),
        r@.len() == 0 <==> s@.len() == 0,
{
    s.to_lowercase()
}

/// `kw`, not empty, occurs (lowercased) in the lowercased merchant or goods text.
pub open spec fn keyword_hits(kw: Seq<char>, merchant: Seq<char>, goods: Seq<char>) -> bool {
    let k = lowercase(kw);
    kw.len() > 0 && (contains(lowercase(merchant), k) || contains(lowercase(goods), k))
}

/// Rule `r` classifies a transaction of `kind` with this merchant and goods text.
pub open spec fn rule_applies(r: RuleView, kind: Seq<char>, merchant: Seq<char>, goods: Seq<char>) -> bool {
    r.enabled && r.kind == kind && keyword_hits(r.keyword, merchant, goods)
}

/// Index `i` holds the first rule of `rules` that applies.
pub open spec fn first_applying(
    rules: Seq<RuleView>,
    kind: Seq<char>,
    merchant: Seq<char>,
    goods: Seq<char>,
    i: int,
) -> bool {
    &&& 0 <= i < rules.len()
    &&& rule_applies(rules[i], kind, merchant, goods)
    &&& forall|j: int| 0 <= j < i ==> !rule_applies(#[trigger] rules[j], kind, merchant, goods)
}

pub open spec fn rule_views(rules: Seq<Rule>) -> Seq<RuleView> {
    rules.map_values(|r: Rule| r@)
}

/// Rule `r`, whose keyword lowercased is `kw_lc`, classifies a
/// transaction of `kind` whose merchant and goods texts lowercased are
/// `m_lc` and `g_lc`.
pub open spec fn applies_lc(r: RuleView, kw_lc: Seq<char>, kind: Seq<char>, m_lc: Seq<char>, g_lc: Seq<char>) -> bool {
    r.enabled && r.kind == kind && kw_lc.len() > 0 && (contains(m_lc, kw_lc) || contains(g_lc, kw_lc))
}

/// The rule engine on lowercased texts: the index of the first rule that
/// applies, given each rule's keyword lowercased (`keywords_lc[i]` for
/// rule `i`) and the merchant and goods texts lowercased.
pub fn first_applying_lc(
    rules: &Vec<Rule>,
    keywords_lc: &Vec<String>,
    kind: &str,
    merchant_lc: &str,
    goods_lc: &str,
) -> (r: Option<usize>)
    requires
        keywords_lc@.len() == rules@.len(),
    ensures
        match r {
            Some(i) => i < rules@.len() && applies_lc(rules@[i as int]@, keywords_lc@[i as int]@, kind@, merchant_lc@, goods_lc@)
                && forall|j: int|
                0 <= j < i ==> !applies_lc(#[trigger] rules@[j]@, keywords_lc@[j]@, kind@, merchant_lc@, goods_lc@),
            None => forall|j: int|
                0 <= j < rules@.len() ==> !applies_lc(#[trigger] rules@[j]@, keywords_lc@[j]@, kind@, merchant_lc@, goods_lc@),
        },
{
    let m = chars_of(merchant_lc);
    let g = chars_of(goods_lc);
    let mut i: usize = 0;
    while i < rules.len()
        invariant
            i <= rules@.len(),
            keywords_lc@.len() == rules@.len(),
            m@ == merchant_lc@,
            g@ == goods_lc@,
            forall|j: int|
                0 <= j < i ==> !applies_lc(#[trigger] rules@[j]@, keywords_lc@[j]@, kind@, merchant_lc@, goods_lc@),
        decreases rules@.len() - i,
    {
        let rule = &rules[i];
        if rule.enabled && str_eq(rule.kind.as_str(), kind) {
            let kw = chars_of(keywords_lc[i].as_str());
            if kw.len() > 0 && (contains_exec(m.as_slice(), kw.as_slice()) || contains_exec(g.as_slice(), kw.as_slice())) {
                return Some(i);
            }
        }
        i = i + 1;
    }
    None
}

/// Each rule's keyword lowercased.
fn lowered_keywords(rules: &Vec<Rule>) -> (r: Vec<String>)
    ensures
        r@.len() == rules@.len(),
        forall|j: int| 0 <= j < rules@.len() ==> (#[trigger] r@[j])@ == lowercase(rules@[j].keyword@),
        forall|j: int| 0 <= j < rules@.len() ==> ((#[trigger] r@[j])@.len() == 0 <==> rules@[j].keyword@.len() == 0),
{
    let mut out: Vec<String> = Vec::new();
    let mut i: usize = 0;
    while i < rules.len()
        invariant
            i <= rules@.len(),
            out@.len() == i,
            forall|j: int| 0 <= j < i ==> (#[trigger] out@[j])@ == lowercase(rules@[j].keyword@),
            forall|j: int| 0 <= j < i ==> ((#[trigger] out@[j])@.len() == 0 <==> rules@[j].keyword@.len() == 0),
        decreases rules@.len() - i,
    {
        out.push(to_lowercase(rules[i].keyword.as_str()));
        i = i + 1;
    }
    out
}

/// The rule engine. `rules` are in the order of precedence (highest
/// priority first, then oldest first, as `list_rules` gives them); the
/// result is the category (`l1`, `l2`) of the first enabled rule of `kind`
/// whose keyword, ignoring case and when not empty, occurs in `merchant`
/// or in `goods`.
pub fn classify(rules: &Vec<Rule>, kind: &str, merchant: &str, goods: &str) -> (r: Option<
    (String, Option<String>),
>)
    ensures
        match r {
            Some((l1, l2)) => exists|i: int|
                first_applying(rule_views(rules@), kind@, merchant@, goods@, i)
                    && l1@ == rules@[i].l1@ && opt_view(l2) == opt_view(rules@[i].l2),
            None => forall|i: int|
                0 <= i < rules@.len() ==> !rule_applies(
                    #[trigger] rule_views(rules@)[i],
                    kind@,
                    merchant@,
                    goods@,
                ),
        },
{
    let keywords_lc = lowered_keywords(rules);
    let merchant_lc = to_lowercase(merchant);
    let goods_lc = to_lowercase(goods);
    let ghost rv = rule_views(rules@);
    assert forall|j: int| 0 <= j < rules@.len() implies #[trigger] rule_applies(rv[j], kind@, merchant@, goods@)
        == applies_lc(rules@[j]@, keywords_lc@[j]@, kind@, merchant_lc@, goods_lc@) by {
        assert(rv[j] == rules@[j]@);
    }
    match first_applying_lc(rules, &keywords_lc, kind, merchant_lc.as_str(), goods_lc.as_str()) {
        Some(i) => {
            let rule = &rules[i];
            let l2 = match &rule.l2 {
                Some(s) => Some(s.clone()),
                None => None,
            };
            assert(first_applying(rv, kind@, merchant@, goods@, i as int));
            Some((rule.l1.clone(), l2))
        },
        None => None,
    }
}

/// Some enabled rule's keyword (not empty, lowercased) occurs in the
/// lowercased merchant: the merchant is not new.
pub open spec fn known_by(rules: Seq<RuleView>, merchant: Seq<char>) -> bool {
    exists|i: int|
        0 <= i < rules.len() && #[trigger] rules[i].enabled && rules[i].keyword.len() > 0 && contains(
            lowercase(merchant),
            lowercase(rules[i].keyword),
        )
}

/// Rule `r`, whose keyword lowercased is `kw_lc`, covers a merchant whose
/// name lowercased is `m_lc`.
pub open spec fn covers_lc(r: RuleView, kw_lc: Seq<char>, m_lc: Seq<char>) -> bool {
    r.enabled && r.keyword.len() > 0 && contains(m_lc, kw_lc)
}

/// Whether an enabled rule covers a merchant, on lowercased texts.
pub fn known_lc(rules: &Vec<Rule>, keywords_lc: &Vec<String>, merchant_lc: &str) -> (r: bool)
    requires
        keywords_lc@.len() == rules@.len(),
    ensures
        r == exists|j: int| 0 <= j < rules@.len() && covers_lc(#[trigger] rules@[j]@, keywords_lc@[j]@, merchant_lc@),
{
    let m = chars_of(merchant_lc);
    let mut i: usize = 0;
    while i < rules.len()
        invariant
            i <= rules@.len(),
            keywords_lc@.len() == rules@.len(),
            m@ == merchant_lc@,
            forall|j: int| 0 <= j < i ==> !covers_lc(#[trigger] rules@[j]@, keywords_lc@[j]@, merchant_lc@),
        decreases rules@.len() - i,
    {
        let rule = &rules[i];
        if rule.enabled && !rule.keyword.as_str().is_empty() {
            let kw = chars_of(keywords_lc[i].as_str());
            if contains_exec(m.as_slice(), kw.as_slice()) {
                assert(covers_lc(rules@[i as int]@, keywords_lc@[i as int]@, merchant_lc@));
                return true;
            }
        }
        i = i + 1;
    }
    false
}

/// Whether an enabled rule of any kind already covers `merchant` (used to
/// tell a new merchant).
pub fn merchant_known(rules: &Vec<Rule>, merchant: &str) -> (r: bool)
    ensures
        r == known_by(rule_views(rules@), merchant@),
{
    let keywords_lc = lowered_keywords(rules);
    let lc = to_lowercase(merchant);
    let ghost rv = rule_views(rules@);
    let r = known_lc(rules, &keywords_lc, lc.as_str());
    proof {
        if r {
            let j = choose|j: int| 0 <= j < rules@.len() && covers_lc(#[trigger] rules@[j]@, keywords_lc@[j]@, lc@);
            assert(rv[j] == rules@[j]@);
        }
        if known_by(rv, merchant@) {
            let j = choose|j: int|
                0 <= j < rv.len() && #[trigger] rv[j].enabled && rv[j].keyword.len() > 0 && contains(
                    lowercase(merchant@),
                    lowercase(rv[j].keyword),
                );
            assert(rv[j] == rules@[j]@);
            assert(covers_lc(rules@[j]@, keywords_lc@[j]@, lc@));
        }
    }
    r
}

// ---------------------------------------------------------------------
// Learning from an assignment, and storing rules
// ---------------------------------------------------------------------

/// The kind of the rule learned from an assignment: income when the
/// category names 收入, expense otherwise.
pub fn assign_kind(l1: &str) -> (r: &'static str)
    ensures
        r@ == (if contains(l1@, "收入"@) { "income"@ } else { "expense"@ }),
{
    let c = chars_of(l1);
    if contains_str(c.as_slice(), "收入") {
        "income"
    } else {
        "expense"
    }
}

/// A rule with exactly this keyword, kind and category is stored already
/// (a missing second level counts as empty).
pub open spec fn rule_exists(rules: Seq<RuleView>, keyword: Seq<char>, kind: Seq<char>, l1: Seq<char>, l2: Option<Seq<char>>) -> bool {
    exists|i: int|
        0 <= i < rules.len() && (#[trigger] rules[i]).keyword == keyword && rules[i].kind == kind && rules[i].l1
            == l1 && or_empty(rules[i].l2) == or_empty(l2)
}

fn opt_or_empty_eq(a: &Option<String>, b: &Option<String>) -> (r: bool)
    ensures
        r == (or_empty(opt_view(*a)) == or_empty(opt_view(*b))),
{
    let x = match a {
        Some(s) => s.as_str(),
        None => "",
    };
    let y = match b {
        Some(s) => s.as_str(),
        None => "",
    };
    proof {
        reveal_strlit("");
        assert(""@ =~= Seq::<char>::empty());
    }
    str_eq(x, y)
}

/// Whether assigning `merchant` to a category should store a new rule:
/// not when the same rule is there already.
pub fn should_learn(rules: &Vec<Rule>, kind: &str, merchant: &str, l1: &str, l2: &Option<String>) -> (r: bool)
    ensures
        r == !rule_exists(rule_views(rules@), merchant@, kind@, l1@, opt_view(*l2)),
{
    let ghost rv = rule_views(rules@);
    let mut i: usize = 0;
    while i < rules.len()
        invariant
            i <= rules@.len(),
            rv == rule_views(rules@),
            forall|k: int|
                0 <= k < i ==> !((#[trigger] rv[k]).keyword == merchant@ && rv[k].kind == kind@ && rv[k].l1 == l1@
                    && or_empty(rv[k].l2) == or_empty(opt_view(*l2))),
        decreases rules@.len() - i,
    {
        let r = &rules[i];
        assert(rv[i as int] == r@);
        if str_eq(r.keyword.as_str(), merchant) && str_eq(r.kind.as_str(), kind) && str_eq(r.l1.as_str(), l1)
            && opt_or_empty_eq(&r.l2, l2) {
            return false;
        }
        i = i + 1;
    }
    true
}

/// Learning is done once: after the rule learned from an assignment is
/// stored, assigning the same merchant to the same category again stores
/// nothing more.
pub proof fn law_learning_is_idempotent(
    rules: Seq<RuleView>,
    rule: RuleView,
    kind: Seq<char>,
    merchant: Seq<char>,
    l1: Seq<char>,
    l2: Option<Seq<char>>,
)
    requires
        rule.keyword == merchant,
        rule.kind == kind,
        rule.l1 == l1,
        rule.l2 == l2,
    ensures
        rule_exists(rules.push(rule), merchant, kind, l1, l2),
{
    assert(rules.push(rule)[rules.len() as int] == rule);
}

/// The rule that learning from an assignment stores: the merchant as
/// keyword, priority 0, enabled, marked "learned".
pub open spec fn learned_rule(id: i64, kind: Seq<char>, merchant: Seq<char>, l1: Seq<char>, l2: Option<Seq<char>>) -> RuleView {
    RuleView { id, keyword: merchant, kind, l1, l2, priority: 0, enabled: true, source: "learned"@ }
}

/// The rules after learning from an assignment: unchanged when the same
/// rule is there, else with the learned rule added.
pub open spec fn learn_spec(
    rules: Seq<RuleView>,
    id: i64,
    kind: Seq<char>,
    merchant: Seq<char>,
    l1: Seq<char>,
    l2: Option<Seq<char>>,
) -> Seq<RuleView> {
    if rule_exists(rules, merchant, kind, l1, l2) {
        rules
    } else {
        rules.push(learned_rule(id, kind, merchant, l1, l2))
    }
}

/// Learning from the same assignment twice stores one rule: the second
/// time changes nothing.
pub proof fn law_learn_twice_is_learn_once(
    rules: Seq<RuleView>,
    id1: i64,
    id2: i64,
    kind: Seq<char>,
    merchant: Seq<char>,
    l1: Seq<char>,
    l2: Option<Seq<char>>,
)
    ensures
        learn_spec(learn_spec(rules, id1, kind, merchant, l1, l2), id2, kind, merchant, l1, l2) == learn_spec(
            rules,
            id1,
            kind,
            merchant,
            l1,
            l2,
        ),
{
    if !rule_exists(rules, merchant, kind, l1, l2) {
        law_learning_is_idempotent(rules, learned_rule(id1, kind, merchant, l1, l2), kind, merchant, l1, l2);
    }
}

/// The priority and the enabled flag a stored rule gets: those given, or
/// 0 and enabled.
pub fn rule_settings(input: &RuleInput) -> (r: (i64, bool))
    ensures
        r.0 == (match input.priority {
            Some(p) => p,
            None => 0,
        }),
        r.1 == (match input.enabled {
            Some(e) => e,
            None => true,
        }),
{
    let p = match input.priority {
        Some(p) => p,
        None => 0,
    };
    let e = match input.enabled {
        Some(e) => e,
        None => true,
    };
    (p, e)
}

/// Every string occurs in itself.
pub proof fn lemma_contains_self(s: Seq<char>)
    ensures
        contains(s, s),
{
    assert(s.subrange(0, s.len() as int) == s);
    assert(occurs_at(s, s, 0));
}

/// The rule that assigning a merchant leaves behind: enabled, keyword the
/// merchant itself.
pub open spec fn learned(rule: RuleView, kind: Seq<char>, merchant: Seq<char>) -> bool {
    rule.enabled && rule.kind == kind && rule.keyword == merchant
}

/// Once a merchant has been assigned (a rule learned from it), it is no
/// longer a new merchant, whatever rules stood before.
pub proof fn law_learned_merchant_is_known(rules: Seq<RuleView>, rule: RuleView, kind: Seq<char>, merchant: Seq<char>)
    requires
        learned(rule, kind, merchant),
        merchant.len() > 0,
    ensures
        known_by(rules.push(rule), merchant),
{
    lemma_contains_self(lowercase(merchant));
    assert(rules.push(rule)[rules.len() as int] == rule);
}

/// Once a merchant has been assigned, its later transactions of that kind
/// are classified by some rule (the learned one, or one of higher
/// precedence), whatever their goods text.
pub proof fn law_learned_merchant_is_classified(
    rules: Seq<RuleView>,
    rule: RuleView,
    kind: Seq<char>,
    merchant: Seq<char>,
    goods: Seq<char>,
)
    requires
        learned(rule, kind, merchant),
        merchant.len() > 0,
    ensures
        exists|i: int| first_applying(rules.push(rule), kind, merchant, goods, i),
{
    let all = rules.push(rule);
    lemma_contains_self(lowercase(merchant));
    assert(rule_applies(all[rules.len() as int], kind, merchant, goods));
    lemma_first_exists(all, kind, merchant, goods, rules.len() as int);
}

/// If some rule applies, a first one does.
pub proof fn lemma_first_exists(rules: Seq<RuleView>, kind: Seq<char>, merchant: Seq<char>, goods: Seq<char>, k: int)
    requires
        0 <= k < rules.len(),
        rule_applies(rules[k], kind, merchant, goods),
    ensures
        exists|i: int| first_applying(rules, kind, merchant, goods, i),
    decreases k,
{
    if forall|j: int| 0 <= j < k ==> !rule_applies(#[trigger] rules[j], kind, merchant, goods) {
        assert(first_applying(rules, kind, merchant, goods, k));
    } else {
        let j = choose|j: int| 0 <= j < k && rule_applies(#[trigger] rules[j], kind, merchant, goods);
        lemma_first_exists(rules, kind, merchant, goods, j);
    }
}

/// Precedence: the rule that decides is the earliest that applies, so a
/// rule that applies and stands before every other decides, and no later
/// rule can; a disabled rule, a rule of another kind or one with an empty
/// keyword decides nothing; a rule whose keyword occurs in the merchant,
/// in whatever case, applies to every transaction of its kind, whatever
/// the goods text.
pub proof fn law_rule_precedence(
    rules: Seq<RuleView>,
    kind: Seq<char>,
    merchant: Seq<char>,
    goods: Seq<char>,
    i: int,
    j: int,
)
    ensures
        first_applying(rules, kind, merchant, goods, i) && first_applying(rules, kind, merchant, goods, j) ==> i
            == j,
        rules.len() > 0 && rule_applies(rules[0], kind, merchant, goods) ==> first_applying(
            rules,
            kind,
            merchant,
            goods,
            0,
        ),
        first_applying(rules, kind, merchant, goods, i) && 0 <= j < rules.len() && rule_applies(
            rules[j],
            kind,
            merchant,
            goods,
        ) ==> i <= j,
        0 <= i < rules.len() && (!rules[i].enabled || rules[i].kind != kind || rules[i].keyword.len() == 0) ==> !first_applying(
            rules,
            kind,
            merchant,
            goods,
            i,
        ),
        0 <= i < rules.len() && rules[i].enabled && rules[i].kind == kind && rules[i].keyword.len() > 0 && contains(
            lowercase(merchant),
            lowercase(rules[i].keyword),
        ) ==> rule_applies(rules[i], kind, merchant, goods),
{
    if first_applying(rules, kind, merchant, goods, i) && first_applying(rules, kind, merchant, goods, j) {
        if i < j {
            assert(!rule_applies(rules[i], kind, merchant, goods));
        }
        if j < i {
            assert(!rule_applies(rules[j], kind, merchant, goods));
        }
    }
    if first_applying(rules, kind, merchant, goods, i) && 0 <= j < rules.len() && rule_applies(rules[j], kind, merchant, goods) {
        if j < i {
            assert(!rule_applies(rules[j], kind, merchant, goods));
        }
    }
}

} // verus!
