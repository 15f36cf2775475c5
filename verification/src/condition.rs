//! Filter conditions such as `price < 1000` or `name == Diesel`.
use vstd::prelude::*;
use crate::text::{chars_of, string_of, string_chars, trim, trim_chars, words, split_words, views, join, join_from, lex_less, less_chars, same_chars, is_literal, lowercase, lowercase_of, concat3};
use crate::fuel::Fuel;

verus! {

/// The field a condition looks at.
#[derive(Debug, Clone, Copy, PartialEq, Eq, Hash, Structural)]
pub enum ConditionField {
    Price,
    Name,
}

/// The comparison a condition makes.
#[derive(Debug, Clone, Copy, PartialEq, Eq, Structural)]
pub enum ConditionOperator {
    Less,
    LessEqual,
    Greater,
    GreaterEqual,
    Equal,
    NotEqual,
}

/// A condition: the field, the comparison, and the value compared with.
#[derive(Debug, Clone, PartialEq)]
pub struct Condition {
    pub field: ConditionField,
    pub operator: ConditionOperator,
    pub value: String,
}

/// The field a (lower-case) word names: `price`, `sum` and `cost` name the
/// price; `name`, `type` and `fuel` the name.
pub open spec fn field_named(w: Seq<char>) -> Option<ConditionField> {
    if w == "price"@ || w == "sum"@ || w == "cost"@ {
        Some(ConditionField::Price)
    } else if w == "name"@ || w == "type"@ || w == "fuel"@ {
        Some(ConditionField::Name)
    } else {
        None
    }
}

/// The comparison a word names: `<`, `<=`, `>`, `>=`, `==` or `=`, and
/// `!=` or `<>`.
pub open spec fn operator_named(w: Seq<char>) -> Option<ConditionOperator> {
    if w == "<"@ {
        Some(ConditionOperator::Less)
    } else if w == "<="@ {
        Some(ConditionOperator::LessEqual)
    } else if w == ">"@ {
        Some(ConditionOperator::Greater)
    } else if w == ">="@ {
        Some(ConditionOperator::GreaterEqual)
    } else if w == "=="@ || w == "="@ {
        Some(ConditionOperator::Equal)
    } else if w == "!="@ || w == "<>"@ {
        Some(ConditionOperator::NotEqual)
    } else {
        None
    }
}

/// The contents of a condition: field, comparison and value text.
pub type ConditionView = (ConditionField, ConditionOperator, Seq<char>);

/// The condition written in `s`, or the error for it: the words of the
/// trimmed text are the field (compared in lower case), the operator, and
/// the value, which is the rest of the words joined by single spaces.
pub open spec fn condition_spec(s: Seq<char>) -> Result<ConditionView, Seq<char>> {
    let t = trim(s);
    let ws = words(t);
    if ws.len() < 3 {
        Err("Invalid condition format '"@ + t + "', expected: field operator value"@)
    } else {
        let fw = lowercase(ws[0]);
        match field_named(fw) {
            None => Err("Unknown field '"@ + fw + "'"@),
            Some(f) => match operator_named(ws[1]) {
                None => Err("Unknown operator '"@ + ws[1] + "'"@),
                Some(op) => Ok((f, op, join(ws.skip(2), seq![' ']))),
            },
        }
    }
}

/// `r` is the outcome `s` in executable form.
pub open spec fn condition_match(r: Result<Condition, String>, s: Result<ConditionView, Seq<char>>) -> bool {
    match (r, s) {
        (Ok(c), Ok(v)) => c.field == v.0 && c.operator == v.1 && c.value@ == v.2,
        (Err(e), Err(m)) => e@ == m,
        _ => false,
    }
}

/// Whether a name `n` stands in the relation `op` to the value `v` (both
/// already in lower case), in the lexicographic order of strings.
pub open spec fn name_holds(op: ConditionOperator, n: Seq<char>, v: Seq<char>) -> bool {
    match op {
        ConditionOperator::Less => lex_less(n, v),
        ConditionOperator::LessEqual => !lex_less(v, n),
        ConditionOperator::Greater => lex_less(v, n),
        ConditionOperator::GreaterEqual => !lex_less(n, v),
        ConditionOperator::Equal => n == v,
        ConditionOperator::NotEqual => n != v,
    }
}

/// `b` is an outcome of testing `c` on `fuel`: a price condition is decided
/// by `price_test` on the price, the operator and the value text; a name
/// condition compares the lower-case name with the lower-case value.
pub open spec fn condition_holds<P, F: Fn(&P, ConditionOperator, &String) -> bool>(
    c: Condition,
    fuel: Fuel<P>,
    price_test: F,
    b: bool,
) -> bool {
    match c.field {
        ConditionField::Price => call_ensures(price_test, (&fuel.price, c.operator, &c.value), b),
        ConditionField::Name => b == name_holds(c.operator, lowercase(fuel.name@), lowercase(c.value@)),
    }
}

/// The field a word names.
fn field_of(w: &Vec<char>) -> (r: Option<ConditionField>)
    ensures
        r == field_named(w@),
{
    if is_literal(w.as_slice(), "price") || is_literal(w.as_slice(), "sum") || is_literal(
        w.as_slice(),
        "cost",
    ) {
        Some(ConditionField::Price)
    } else if is_literal(w.as_slice(), "name") || is_literal(w.as_slice(), "type") || is_literal(
        w.as_slice(),
        "fuel",
    ) {
        Some(ConditionField::Name)
    } else {
        None
    }
}

/// The comparison a word names.
fn operator_of(w: &Vec<char>) -> (r: Option<ConditionOperator>)
    ensures
        r == operator_named(w@),
{
    let s = w.as_slice();
    if is_literal(s, "<") {
        Some(ConditionOperator::Less)
    } else if is_literal(s, "<=") {
        Some(ConditionOperator::LessEqual)
    } else if is_literal(s, ">") {
        Some(ConditionOperator::Greater)
    } else if is_literal(s, ">=") {
        Some(ConditionOperator::GreaterEqual)
    } else if is_literal(s, "==") || is_literal(s, "=") {
        Some(ConditionOperator::Equal)
    } else if is_literal(s, "!=") || is_literal(s, "<>") {
        Some(ConditionOperator::NotEqual)
    } else {
        None
    }
}

impl Condition {
    /// Reads a condition such as `price < 1000`.
    pub fn parse(condition_str: &str) -> (r: Result<Self, String>)
        ensures
            condition_match(r, condition_spec(condition_str@)),
    {
        let cs = chars_of(condition_str);
        let t = trim_chars(cs.as_slice());
        let parts = split_words(t.as_slice());
        if parts.len() < 3 {
            return Err(
                concat3("Invalid condition format '", t.as_slice(), "', expected: field operator value"),
            );
        }
        assert(views(parts@)[0] == parts@[0]@);
        assert(views(parts@)[1] == parts@[1]@);
        let first = string_of(parts[0].as_slice());
        let lower = lowercase_of(first.as_str());
        let fw = string_chars(&lower);
        let field = match field_of(&fw) {
            Some(f) => f,
            None => return Err(concat3("Unknown field '", fw.as_slice(), "'")),
        };
        let operator = match operator_of(&parts[1]) {
            Some(op) => op,
            None => return Err(concat3("Unknown operator '", parts[1].as_slice(), "'")),
        };
        let v = join_from(&parts, 2, ' ');
        Ok(Condition { field, operator, value: string_of(v.as_slice()) })
    }

    /// Tests the condition on a record; a price condition is decided by
    /// `price_test`.
    pub fn evaluate<P, F: Fn(&P, ConditionOperator, &String) -> bool>(&self, fuel: &Fuel<P>, price_test: &F) -> (b: bool)
        requires
            forall|p: &P, o: ConditionOperator, v: &String| price_test.requires((p, o, v)),
        ensures
            condition_holds(*self, *fuel, *price_test, b),
    {
        match self.field {
            ConditionField::Price => price_test(&fuel.price, self.operator, &self.value),
            ConditionField::Name => {
                let match_value = string_chars(&lowercase_of(self.value.as_str()));
                let fuel_name = string_chars(&lowercase_of(fuel.name.as_str()));
                let n = fuel_name.as_slice();
                let v = match_value.as_slice();
                match self.operator {
                    ConditionOperator::Less => less_chars(n, v),
                    ConditionOperator::LessEqual => !less_chars(v, n),
                    ConditionOperator::Greater => less_chars(v, n),
                    ConditionOperator::GreaterEqual => !less_chars(n, v),
                    ConditionOperator::Equal => same_chars(n, v),
                    ConditionOperator::NotEqual => !same_chars(n, v),
                }
            },
        }
    }
}

/// The order of names is total and strict: of `a < b`, `a == b` and
/// `b < a`, exactly one holds.
pub proof fn lemma_lex_trichotomy(a: Seq<char>, b: Seq<char>)
    ensures
        lex_less(a, b) || a == b || lex_less(b, a),
        !(lex_less(a, b) && lex_less(b, a)),
        !(lex_less(a, b) && a == b),
    decreases a.len(),
{
    if a.len() > 0 && b.len() > 0 && a[0] == b[0] {
        lemma_lex_trichotomy(a.drop_first(), b.drop_first());
        if a.drop_first() == b.drop_first() {
            assert(a.len() == b.len());
            assert forall|i: int| 0 <= i < a.len() implies a[i] == b[i] by {
                if i > 0 {
                    assert(a[i] == a.drop_first()[i - 1]);
                    assert(b[i] == b.drop_first()[i - 1]);
                }
            }
            assert(a =~= b);
        }
    } else if a.len() == 0 && b.len() == 0 {
        assert(a =~= b);
    }
}

/// For name conditions, `<=` holds exactly where `<` or `==` does, `>=`
/// exactly where `>` or `==` does, and `!=` exactly where `==` does not.
pub proof fn lemma_name_operators(n: Seq<char>, v: Seq<char>)
    ensures
        name_holds(ConditionOperator::LessEqual, n, v) == (name_holds(ConditionOperator::Less, n, v)
            || name_holds(ConditionOperator::Equal, n, v)),
        name_holds(ConditionOperator::GreaterEqual, n, v) == (name_holds(
            ConditionOperator::Greater,
            n,
            v,
        ) || name_holds(ConditionOperator::Equal, n, v)),
        name_holds(ConditionOperator::NotEqual, n, v) == !name_holds(ConditionOperator::Equal, n, v),
        name_holds(ConditionOperator::Less, n, v) == !name_holds(ConditionOperator::GreaterEqual, n, v),
        name_holds(ConditionOperator::Greater, n, v) == !name_holds(ConditionOperator::LessEqual, n, v),
{
    lemma_lex_trichotomy(n, v);
    lemma_lex_trichotomy(v, n);
}

/// `a` comes before `b` in the order of strings: `a` is a proper prefix of
/// `b`, or at the first position where they differ the character of `a` has
/// the smaller code point.
pub open spec fn comes_before(a: Seq<char>, b: Seq<char>) -> bool {
    ||| (a.len() < b.len() && a == b.take(a.len() as int))
    ||| exists|k: int|
        0 <= k < a.len() && k < b.len() && a.take(k) == b.take(k) && (a[k] as int) < (#[trigger] b[k] as int)
}

/// `lex_less` is the order of strings described by `comes_before`.
pub proof fn lemma_lex_less_comes_before(a: Seq<char>, b: Seq<char>)
    ensures
        lex_less(a, b) <==> comes_before(a, b),
    decreases a.len(),
{
    if a.len() == 0 {
        assert(a == b.take(0));
    } else if b.len() == 0 {
    } else if a[0] != b[0] {
        if (a[0] as int) < (b[0] as int) {
            assert(a.take(0) =~= b.take(0));
            assert(0 <= 0 < a.len() && 0 < b.len() && a.take(0) == b.take(0) && (a[0] as int) < (b[0] as int));
        }
        if comes_before(a, b) {
            if a.len() < b.len() && a == b.take(a.len() as int) {
                assert(a[0] == b.take(a.len() as int)[0]);
            } else {
                let k = choose|k: int|
                    0 <= k < a.len() && k < b.len() && a.take(k) == b.take(k) && (a[k] as int) < (#[trigger] b[k] as int);
                if k > 0 {
                    assert(a.take(k)[0] == b.take(k)[0]);
                }
            }
        }
    } else {
        let a1 = a.drop_first();
        let b1 = b.drop_first();
        lemma_lex_less_comes_before(a1, b1);
        if comes_before(a1, b1) {
            if a1.len() < b1.len() && a1 == b1.take(a1.len() as int) {
                assert forall|i: int| 0 <= i < a.len() implies a[i] == b.take(a.len() as int)[i] by {
                    if i > 0 {
                        assert(a[i] == a1[i - 1]);
                        assert(b[i] == b1[i - 1]);
                        assert(a1[i - 1] == b1.take(a1.len() as int)[i - 1]);
                    }
                }
                assert(a =~= b.take(a.len() as int));
            } else {
                let k = choose|k: int|
                    0 <= k < a1.len() && k < b1.len() && a1.take(k) == b1.take(k) && (a1[k] as int) < (#[trigger] b1[k] as int);
                let ak = a.take(k + 1);
                let bk = b.take(k + 1);
                assert forall|i: int| 0 <= i < k + 1 implies #[trigger] ak[i] == bk[i] by {
                    if i > 0 {
                        assert(a1.take(k)[i - 1] == b1.take(k)[i - 1]);
                    }
                }
                assert(a.take(k + 1) =~= b.take(k + 1));
                assert(a[k + 1] == a1[k] && b[k + 1] == b1[k]);
            }
        }
        if comes_before(a, b) {
            if a.len() < b.len() && a == b.take(a.len() as int) {
                assert forall|i: int| 0 <= i < a1.len() implies a1[i] == b1.take(a1.len() as int)[i] by {
                    assert(a[i + 1] == b.take(a.len() as int)[i + 1]);
                }
                assert(a1 =~= b1.take(a1.len() as int));
            } else {
                let k = choose|k: int|
                    0 <= k < a.len() && k < b.len() && a.take(k) == b.take(k) && (a[k] as int) < (#[trigger] b[k] as int);
                assert(k > 0);
                let ak = a1.take(k - 1);
                let bk = b1.take(k - 1);
                assert forall|i: int| 0 <= i < k - 1 implies #[trigger] ak[i] == bk[i] by {
                    assert(a.take(k)[i + 1] == b.take(k)[i + 1]);
                }
                assert(a1.take(k - 1) =~= b1.take(k - 1));
                assert(a1[k - 1] == a[k] && b1[k - 1] == b[k]);
            }
        }
    }
}

/// Name conditions follow the order of strings on the lower-case name and
/// value: `<` holds exactly when the name comes before the value, `>`
/// exactly when the value comes before the name, `<=` and `>=` when that or
/// equality holds, `==` and `!=` by equality.
pub proof fn lemma_name_conditions_follow_string_order<P, F: Fn(&P, ConditionOperator, &String) -> bool>(
    c: Condition,
    fuel: Fuel<P>,
    price_test: F,
    b: bool,
)
    requires
        c.field == ConditionField::Name,
        condition_holds(c, fuel, price_test, b),
    ensures
        c.operator == ConditionOperator::Less ==> (b <==> comes_before(lowercase(fuel.name@), lowercase(c.value@))),
        c.operator == ConditionOperator::LessEqual ==> (b <==> (comes_before(lowercase(fuel.name@), lowercase(c.value@))
            || lowercase(fuel.name@) == lowercase(c.value@))),
        c.operator == ConditionOperator::Greater ==> (b <==> comes_before(lowercase(c.value@), lowercase(fuel.name@))),
        c.operator == ConditionOperator::GreaterEqual ==> (b <==> (comes_before(lowercase(c.value@), lowercase(fuel.name@))
            || lowercase(fuel.name@) == lowercase(c.value@))),
        c.operator == ConditionOperator::Equal ==> (b <==> lowercase(fuel.name@) == lowercase(c.value@)),
        c.operator == ConditionOperator::NotEqual ==> (b <==> lowercase(fuel.name@) != lowercase(c.value@)),
{
    let n = lowercase(fuel.name@);
    let v = lowercase(c.value@);
    lemma_lex_less_comes_before(n, v);
    lemma_lex_less_comes_before(v, n);
    lemma_lex_trichotomy(n, v);
}

/// The field of a condition is named by its first word, in lower case:
/// `name`, `type` and `fuel` name the record's name, and `price`, `sum` and
/// `cost` its price.
pub proof fn lemma_condition_field_words(s: Seq<char>)
    requires
        condition_spec(s) is Ok,
    ensures
        (condition_spec(s)->Ok_0.0 == ConditionField::Name) <==> (lowercase(words(trim(s))[0]) == "name"@
            || lowercase(words(trim(s))[0]) == "type"@ || lowercase(words(trim(s))[0]) == "fuel"@),
        (condition_spec(s)->Ok_0.0 == ConditionField::Price) <==> (lowercase(words(trim(s))[0]) == "price"@
            || lowercase(words(trim(s))[0]) == "sum"@ || lowercase(words(trim(s))[0]) == "cost"@),
{
    reveal_strlit("name");
    reveal_strlit("type");
    reveal_strlit("fuel");
    reveal_strlit("price");
    reveal_strlit("sum");
    reveal_strlit("cost");
    let price_words = seq!["price"@, "sum"@, "cost"@];
    let name_words = seq!["name"@, "type"@, "fuel"@];
    assert forall|i: int, j: int| 0 <= i < 3 && 0 <= j < 3 implies price_words[i] != name_words[j] by {
        if price_words[i].len() == name_words[j].len() {
            assert(price_words[i][0] != name_words[j][0]);
        }
    }
    assert("price"@ != "name"@ && "price"@ != "type"@ && "price"@ != "fuel"@);
    assert("sum"@ != "name"@ && "sum"@ != "type"@ && "sum"@ != "fuel"@);
    assert("cost"@ != "name"@ && "cost"@ != "type"@ && "cost"@ != "fuel"@);
}

} // verus!
