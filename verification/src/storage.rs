//! The list of records, in the order they were added; the reading of many
//! records from a text with one record per line, and the writing of them
//! in that form (the save format).
use vstd::prelude::*;
use crate::text::{lemma_lines_of_join, chars_of, string_of, string_chars, trim, trim_chars, lines, split_lines, views, join, push_chars};
use crate::fuel::{Fuel, parsed_from, line_of, display_of, writable, date_text_spec, record_line_spec, color_text_spec, color_spec, split_record_spec, FieldsView, lemma_record_line_writable, lemma_color_text_writable, lemma_record_line_round_trip, lemma_color_round_trip, finish_spec, fuel_match, price_view, date_spec};
use crate::date::{FuelDate, record_date_format, chrono_date};
use crate::condition::{Condition, ConditionOperator, condition_holds};
use std::collections::HashSet;

verus! {

/// The items of `xs` whose entry in `keep` is `true`, in their order.
pub open spec fn filter_by<T>(xs: Seq<T>, keep: Seq<bool>) -> Seq<T>
    decreases xs.len(),
{
    if xs.len() == 0 {
        Seq::empty()
    } else {
        let rest = filter_by(xs.drop_last(), keep.drop_last());
        if keep.last() {
            rest.push(xs.last())
        } else {
            rest
        }
    }
}

/// `ys` is what remains of `xs` when each item is kept as one outcome of
/// the test `f` on it says.
pub open spec fn kept_by<P, F: Fn(&Fuel<P>) -> bool>(f: F, xs: Seq<Fuel<P>>, ys: Seq<Fuel<P>>) -> bool {
    exists|keep: Seq<bool>|
        {
            &&& keep.len() == xs.len()
            &&& forall|i: int| 0 <= i < xs.len() ==> call_ensures(f, (&xs[i],), #[trigger] keep[i])
            &&& ys == filter_by(xs, keep)
        }
}

/// For each of `n` positions, whether it is not among `rows`.
pub open spec fn unselected(rows: Set<usize>, n: nat) -> Seq<bool> {
    Seq::new(n, |i: int| !rows.contains(i as usize))
}

/// `ys` is what remains of `xs` when the records for which `cond` holds
/// (one outcome of the test each) are removed.
pub open spec fn removed_where<P, F: Fn(&P, ConditionOperator, &String) -> bool>(
    cond: Condition,
    price_test: F,
    xs: Seq<Fuel<P>>,
    ys: Seq<Fuel<P>>,
) -> bool {
    exists|keep: Seq<bool>|
        {
            &&& keep.len() == xs.len()
            &&& forall|i: int| 0 <= i < xs.len() ==> condition_holds(cond, xs[i], price_test, !#[trigger] keep[i])
            &&& ys == filter_by(xs, keep)
        }
}

/// `ls` holds, for each record, one save-format line of it.
pub open spec fn lines_of<P, F: Fn(&P) -> String>(xs: Seq<Fuel<P>>, price_text: F, ls: Seq<Seq<char>>) -> bool {
    &&& ls.len() == xs.len()
    &&& forall|i: int| 0 <= i < xs.len() ==> line_of(xs[i], price_text, #[trigger] ls[i])
}

/// `ls` holds, for each record, one display form of it.
pub open spec fn displays_of<P, F: Fn(&P) -> String>(xs: Seq<Fuel<P>>, price_text: F, ls: Seq<Seq<char>>) -> bool {
    &&& ls.len() == xs.len()
    &&& forall|i: int| 0 <= i < xs.len() ==> display_of(xs[i], price_text, #[trigger] ls[i])
}

/// The lines, each followed by a newline.
pub open spec fn terminated(ls: Seq<Seq<char>>) -> Seq<char>
    decreases ls.len(),
{
    if ls.len() == 0 {
        Seq::empty()
    } else {
        terminated(ls.drop_last()) + ls.last() + seq!['\n']
    }
}

/// The values of the `Ok` outcomes, in order.
pub open spec fn oks<T>(rs: Seq<Result<T, String>>) -> Seq<T>
    decreases rs.len(),
{
    if rs.len() == 0 {
        Seq::empty()
    } else {
        let rest = oks(rs.drop_last());
        match rs.last() {
            Ok(v) => rest.push(v),
            Err(_) => rest,
        }
    }
}

/// The lines that are not blank, each trimmed.
pub open spec fn nonblank(ls: Seq<Seq<char>>) -> Seq<Seq<char>>
    decreases ls.len(),
{
    if ls.len() == 0 {
        Seq::empty()
    } else {
        let rest = nonblank(ls.drop_last());
        let t = trim(ls.last());
        if t.len() == 0 {
            rest
        } else {
            rest.push(t)
        }
    }
}

/// The record lines of a text: its lines that are not blank, trimmed.
pub open spec fn record_lines(content: Seq<char>) -> Seq<Seq<char>> {
    nonblank(lines(content))
}

/// `outs` holds, for each line, one outcome of reading it as a record.
pub open spec fn read_each<P, F: Fn(&String) -> Result<P, String>>(
    ls: Seq<Seq<char>>,
    parse_price: F,
    outs: Seq<Result<Fuel<P>, String>>,
) -> bool {
    &&& outs.len() == ls.len()
    &&& forall|i: int| 0 <= i < ls.len() ==> parsed_from(ls[i], parse_price, #[trigger] outs[i])
}

/// The messages of a list of numbered errors.
pub open spec fn error_views(es: Seq<(usize, String)>) -> Seq<(int, Seq<char>)> {
    es.map_values(|e: (usize, String)| (e.0 as int, e.1@))
}

/// The numbers (counted from 1) of the lines that are not blank.
pub open spec fn record_line_numbers(ls: Seq<Seq<char>>) -> Seq<int>
    decreases ls.len(),
{
    if ls.len() == 0 {
        Seq::empty()
    } else {
        let rest = record_line_numbers(ls.drop_last());
        if trim(ls.last()).len() == 0 {
            rest
        } else {
            rest.push(ls.len() as int)
        }
    }
}

/// The errors among the outcomes, each with the number of its line.
pub open spec fn read_errors<P>(nums: Seq<int>, outs: Seq<Result<Fuel<P>, String>>) -> Seq<(int, Seq<char>)>
    decreases outs.len(),
{
    if outs.len() == 0 || nums.len() == 0 {
        Seq::empty()
    } else {
        let rest = read_errors(nums.drop_last(), outs.drop_last());
        match outs.last() {
            Err(e) => rest.push((nums.last(), e@)),
            Ok(_) => rest,
        }
    }
}

/// Records, in the order they were added.
#[derive(Debug, Clone)]
pub struct FuelStorage<P> {
    fuel_storage: Vec<Fuel<P>>,
}

impl<P> View for FuelStorage<P> {
    type V = Seq<Fuel<P>>;

    closed spec fn view(&self) -> Seq<Fuel<P>> {
        self.fuel_storage@
    }
}

impl<P> Default for FuelStorage<P> {
    fn default() -> (s: Self)
        ensures
            s@ == Seq::<Fuel<P>>::empty(),
    {
        FuelStorage { fuel_storage: Vec::new() }
    }
}

impl<P> FuelStorage<P> {
    /// An empty storage.
    pub fn new() -> (s: Self)
        ensures
            s@ == Seq::<Fuel<P>>::empty(),
    {
        FuelStorage { fuel_storage: Vec::new() }
    }

    /// All records, in order.
    pub fn get_all(&self) -> (all: &[Fuel<P>])
        ensures
            all@ == self@,
    {
        self.fuel_storage.as_slice()
    }

    /// Adds a record at the end.
    pub fn push(&mut self, fuel: Fuel<P>)
        ensures
            final(self)@ == old(self)@.push(fuel),
    {
        self.fuel_storage.push(fuel);
    }

    /// Keeps the records for which `f` answers `true`, in their order.
    pub fn retain<F: Fn(&Fuel<P>) -> bool>(&mut self, f: F)
        requires
            forall|x: &Fuel<P>| f.requires((x,)),
        ensures
            kept_by(f, old(self)@, final(self)@),
    {
        let mut rest: Vec<Fuel<P>> = Vec::new();
        std::mem::swap(&mut rest, &mut self.fuel_storage);
        let ghost xs = rest@;
        let ghost mut keep: Seq<bool> = Seq::empty();
        let mut kept: Vec<Fuel<P>> = Vec::new();
        let n = rest.len();
        let mut i: usize = 0;
        assert(xs.take(0) =~= Seq::<Fuel<P>>::empty());
        assert(xs.skip(0) =~= xs);
        while rest.len() > 0
            invariant
                n == xs.len(),
                rest@.len() + i == n,
                rest@ == xs.skip(i as int),
                keep.len() == i,
                forall|k: int| 0 <= k < i ==> call_ensures(f, (&xs[k],), #[trigger] keep[k]),
                kept@ == filter_by(xs.take(i as int), keep),
                forall|x: &Fuel<P>| f.requires((x,)),
            decreases rest@.len(),
        {
            let x = rest.remove(0);
            assert(x == xs[i as int]);
            let b = f(&x);
            let ghost old_keep = keep;
            proof {
                keep = keep.push(b);
            }
            assert(xs.take(i + 1).drop_last() =~= xs.take(i as int));
            assert(xs.take(i + 1).last() == x);
            assert(keep.drop_last() =~= old_keep);
            if b {
                kept.push(x);
            }
            assert(rest@ =~= xs.skip(i + 1));
            i = i + 1;
            assert(kept@ =~= filter_by(xs.take(i as int), keep));
        }
        assert(xs.take(n as int) =~= xs);
        self.fuel_storage = kept;
    }

    /// Removes the records at the given positions; the others stay, in
    /// their order.
    pub fn remove_rows(&mut self, rows: &HashSet<usize>)
        ensures
            final(self)@ == filter_by(old(self)@, unselected(rows@, old(self)@.len())),
    {
        broadcast use vstd::std_specs::hash::group_hash_axioms;
        let mut rest: Vec<Fuel<P>> = Vec::new();
        std::mem::swap(&mut rest, &mut self.fuel_storage);
        let ghost xs = rest@;
        let ghost keep = unselected(rows@, xs.len());
        let mut kept: Vec<Fuel<P>> = Vec::new();
        let n = rest.len();
        let mut i: usize = 0;
        assert(xs.take(0) =~= Seq::<Fuel<P>>::empty());
        assert(xs.skip(0) =~= xs);
        while rest.len() > 0
            invariant
                n == xs.len(),
                rest@.len() + i == n,
                rest@ == xs.skip(i as int),
                keep == unselected(rows@, n as nat),
                kept@ == filter_by(xs.take(i as int), keep.take(i as int)),
            decreases rest@.len(),
        {
            let x = rest.remove(0);
            assert(x == xs[i as int]);
            let b = !rows.contains(&i);
            assert(b == keep[i as int]);
            assert(xs.take(i + 1).drop_last() =~= xs.take(i as int));
            assert(xs.take(i + 1).last() == x);
            assert(keep.take(i + 1).drop_last() =~= keep.take(i as int));
            if b {
                kept.push(x);
            }
            assert(rest@ =~= xs.skip(i + 1));
            i = i + 1;
            assert(kept@ =~= filter_by(xs.take(i as int), keep.take(i as int)));
        }
        assert(xs.take(n as int) =~= xs);
        assert(keep.take(n as int) =~= keep);
        self.fuel_storage = kept;
    }

    /// Removes the records for which the condition holds (one outcome of
    /// `Condition::evaluate` each); the others stay, in their order.
    pub fn remove_where<F: Fn(&P, ConditionOperator, &String) -> bool>(&mut self, cond: &Condition, price_test: &F)
        requires
            forall|p: &P, o: ConditionOperator, v: &String| price_test.requires((p, o, v)),
        ensures
            removed_where(*cond, *price_test, old(self)@, final(self)@),
    {
        let mut rest: Vec<Fuel<P>> = Vec::new();
        std::mem::swap(&mut rest, &mut self.fuel_storage);
        let ghost xs = rest@;
        let ghost mut keep: Seq<bool> = Seq::empty();
        let mut kept: Vec<Fuel<P>> = Vec::new();
        let n = rest.len();
        let mut i: usize = 0;
        assert(xs.take(0) =~= Seq::<Fuel<P>>::empty());
        assert(xs.skip(0) =~= xs);
        while rest.len() > 0
            invariant
                n == xs.len(),
                rest@.len() + i == n,
                rest@ == xs.skip(i as int),
                keep.len() == i,
                forall|k: int| 0 <= k < i ==> condition_holds(*cond, xs[k], *price_test, !#[trigger] keep[k]),
                kept@ == filter_by(xs.take(i as int), keep),
                forall|p: &P, o: ConditionOperator, v: &String| price_test.requires((p, o, v)),
            decreases rest@.len(),
        {
            let x = rest.remove(0);
            assert(x == xs[i as int]);
            let b = !cond.evaluate(&x, price_test);
            let ghost old_keep = keep;
            proof {
                keep = keep.push(b);
            }
            assert(xs.take(i + 1).drop_last() =~= xs.take(i as int));
            assert(xs.take(i + 1).last() == x);
            assert(keep.drop_last() =~= old_keep);
            if b {
                kept.push(x);
            }
            assert(rest@ =~= xs.skip(i + 1));
            i = i + 1;
            assert(kept@ =~= filter_by(xs.take(i as int), keep));
        }
        assert(xs.take(n as int) =~= xs);
        self.fuel_storage = kept;
    }

    /// The records in the save format: their lines joined by newlines;
    /// `price_text` writes a price.
    pub fn serialize_storage<F: Fn(&P) -> String>(&self, price_text: &F) -> (r: String)
        requires
            forall|p: &P| price_text.requires((p,)),
        ensures
            exists|ls: Seq<Seq<char>>| lines_of(self@, *price_text, ls) && r@ == join(ls, seq!['\n']),
    {
        let mut out: Vec<char> = Vec::new();
        let ghost mut ls: Seq<Seq<char>> = Seq::empty();
        let n = self.fuel_storage.len();
        let mut i: usize = 0;
        while i < n
            invariant
                i <= n == self@.len(),
                lines_of(self@.take(i as int), *price_text, ls),
                out@ == join(ls, seq!['\n']),
                forall|p: &P| price_text.requires((p,)),
            decreases n - i,
        {
            let line = self.fuel_storage[i].record_line(price_text);
            let ghost old_ls = ls;
            if i > 0 {
                out.push('\n');
            }
            push_chars(&mut out, string_chars(&line).as_slice());
            proof {
                ls = ls.push(line@);
            }
            assert(ls.drop_last() =~= old_ls);
            assert(out@ =~= join(ls, seq!['\n']));
            assert(self@.take(i + 1) =~= self@.take(i as int).push(self@[i as int]));
            i = i + 1;
        }
        assert(self@.take(n as int) =~= self@);
        string_of(out.as_slice())
    }

    /// The records as they are displayed, each followed by a newline;
    /// `price_text` writes a price.
    pub fn to_display_string<F: Fn(&P) -> String>(&self, price_text: &F) -> (r: String)
        requires
            forall|p: &P| price_text.requires((p,)),
        ensures
            exists|ls: Seq<Seq<char>>| displays_of(self@, *price_text, ls) && r@ == terminated(ls),
    {
        let mut out: Vec<char> = Vec::new();
        let ghost mut ls: Seq<Seq<char>> = Seq::empty();
        let n = self.fuel_storage.len();
        let mut i: usize = 0;
        while i < n
            invariant
                i <= n == self@.len(),
                displays_of(self@.take(i as int), *price_text, ls),
                out@ == terminated(ls),
                forall|p: &P| price_text.requires((p,)),
            decreases n - i,
        {
            let text = self.fuel_storage[i].to_display_string(price_text);
            let ghost old_ls = ls;
            push_chars(&mut out, string_chars(&text).as_slice());
            out.push('\n');
            proof {
                ls = ls.push(text@);
            }
            assert(ls.drop_last() =~= old_ls);
            assert(out@ =~= terminated(ls));
            assert(self@.take(i + 1) =~= self@.take(i as int).push(self@[i as int]));
            i = i + 1;
        }
        assert(self@.take(n as int) =~= self@);
        string_of(out.as_slice())
    }

    /// Removes every record.
    pub fn clear(&mut self)
        ensures
            final(self)@ == Seq::<Fuel<P>>::empty(),
    {
        self.fuel_storage.clear();
    }

    /// The number of records.
    pub fn len(&self) -> (n: usize)
        ensures
            n == self@.len(),
    {
        self.fuel_storage.len()
    }

    /// Whether there is no record.
    pub fn is_empty(&self) -> (b: bool)
        ensures
            b == (self@.len() == 0),
    {
        self.fuel_storage.len() == 0
    }

    /// Reads the records of `content`, one per line, and adds those that
    /// read without error at the end, in order; blank and unreadable lines
    /// are skipped.
    pub fn parse<F: Fn(&String) -> Result<P, String>>(&mut self, content: &str, parse_price: &F)
        requires
            forall|s: &String| parse_price.requires((s,)),
        ensures
            exists|outs: Seq<Result<Fuel<P>, String>>|
                read_each(record_lines(content@), *parse_price, outs) && final(self)@ == old(self)@
                    + oks(outs),
    {
        let parser = FuelParser::new();
        let new_storage = parser.parse_content(content, parse_price);
        let ghost added = new_storage@;
        let mut rest = new_storage.fuel_storage;
        let ghost base = self@;
        let total = rest.len();
        let mut i: usize = 0;
        assert(added.skip(0) =~= added);
        while rest.len() > 0
            invariant
                rest@ == added.skip(i as int),
                i <= added.len(),
                total == added.len(),
                rest@.len() + i == total,
                self@ == base + added.take(i as int),
            decreases rest@.len(),
        {
            let x = rest.remove(0);
            self.fuel_storage.push(x);
            assert(rest@ =~= added.skip(i + 1));
            i = i + 1;
            assert(self@ =~= base + added.take(i as int));
        }
        assert(added.take(i as int) =~= added);
    }
}

/// Reads many records from a text.
pub struct FuelParser;

impl FuelParser {
    /// A parser.
    pub fn new() -> (p: Self) {
        FuelParser
    }

    /// Reads the records of `content`, one per line: blank lines are
    /// skipped, each other line is trimmed and read as by `Fuel::from_string`,
    /// and the records of the lines that read without error are kept, in
    /// order.
    pub fn parse_content<P, F: Fn(&String) -> Result<P, String>>(&self, content: &str, parse_price: &F) -> (s: FuelStorage<P>)
        requires
            forall|s: &String| parse_price.requires((s,)),
        ensures
            exists|outs: Seq<Result<Fuel<P>, String>>|
                read_each(record_lines(content@), *parse_price, outs) && s@ == oks(outs),
    {
        let (storage, _errors) = self.parse_content_with_errors(content, parse_price);
        storage
    }

    /// Reads the records of `content` as `parse_content` does, and gives
    /// beside them, in order, each line that did not read as a record: its
    /// number (counting every line from 1) and the error message.
    pub fn parse_content_with_errors<P, F: Fn(&String) -> Result<P, String>>(
        &self,
        content: &str,
        parse_price: &F,
    ) -> (r: (FuelStorage<P>, Vec<(usize, String)>))
        requires
            forall|s: &String| parse_price.requires((s,)),
        ensures
            exists|outs: Seq<Result<Fuel<P>, String>>|
                {
                    &&& read_each(record_lines(content@), *parse_price, outs)
                    &&& r.0@ == oks(outs)
                    &&& record_line_numbers(lines(content@)).len() == outs.len()
                    &&& error_views(r.1@) == read_errors(record_line_numbers(lines(content@)), outs)
                },
    {
        let mut storage: FuelStorage<P> = FuelStorage::new();
        let mut errors: Vec<(usize, String)> = Vec::new();
        let cs = chars_of(content);
        let ls = split_lines(cs.as_slice());
        let ghost lv = views(ls@);
        let ghost mut outs: Seq<Result<Fuel<P>, String>> = Seq::empty();
        let n = ls.len();
        let mut k: usize = 0;
        assert(lv.take(0) =~= Seq::<Seq<char>>::empty());
        while k < n
            invariant
                k <= n == ls@.len(),
                lv == views(ls@),
                lv == lines(content@),
                read_each(nonblank(lv.take(k as int)), *parse_price, outs),
                storage@ == oks(outs),
                record_line_numbers(lv.take(k as int)).len() == outs.len(),
                error_views(errors@) == read_errors(record_line_numbers(lv.take(k as int)), outs),
                forall|s: &String| parse_price.requires((s,)),
            decreases n - k,
        {
            let t = trim_chars(ls[k].as_slice());
            assert(lv.take(k + 1).drop_last() =~= lv.take(k as int));
            assert(lv.take(k + 1).last() == ls@[k as int]@);
            if t.len() > 0 {
                let line = string_of(t.as_slice());
                let r = Fuel::from_string(line.as_str(), parse_price);
                let ghost old_outs = outs;
                proof {
                    outs = outs.push(r);
                }
                assert(outs.drop_last() =~= old_outs);
                let ghost recs = nonblank(lv.take(k + 1));
                assert(recs =~= nonblank(lv.take(k as int)).push(t@));
                assert forall|i: int| 0 <= i < recs.len() implies parsed_from(recs[i], *parse_price, #[trigger] outs[i]) by {
                    if i < recs.len() - 1 {
                        assert(recs[i] == nonblank(lv.take(k as int))[i]);
                        assert(outs[i] == old_outs[i]);
                    }
                }
                let ghost nums = record_line_numbers(lv.take(k + 1));
                assert(nums =~= record_line_numbers(lv.take(k as int)).push(k + 1));
                assert(nums.drop_last() =~= record_line_numbers(lv.take(k as int)));
                match r {
                    Ok(f) => storage.push(f),
                    Err(e) => {
                        let ghost before = error_views(errors@);
                        errors.push((k + 1, e));
                        assert(error_views(errors@) =~= before.push(((k + 1) as int, e@)));
                    },
                }
            } else {
                assert(nonblank(lv.take(k + 1)) =~= nonblank(lv.take(k as int)));
                assert(record_line_numbers(lv.take(k + 1)) =~= record_line_numbers(lv.take(k as int)));
            }
            k = k + 1;
        }
        assert(lv.take(n as int) =~= lv);
        (storage, errors)
    }

    /// Reads one line as a record, as `Fuel::from_string` does.
    pub fn validate_line<P, F: Fn(&String) -> Result<P, String>>(&self, line: &str, parse_price: &F) -> (r: Result<Fuel<P>, String>)
        requires
            forall|s: &String| parse_price.requires((s,)),
        ensures
            parsed_from(line@, *parse_price, r),
    {
        Fuel::from_string(line, parse_price)
    }
}

/// Lines that are trimmed and not empty are all record lines.
proof fn lemma_nonblank_of_trimmed(ls: Seq<Seq<char>>)
    requires
        forall|i: int| 0 <= i < ls.len() ==> trim(#[trigger] ls[i]) == ls[i] && ls[i].len() > 0,
    ensures
        nonblank(ls) == ls,
    decreases ls.len(),
{
    if ls.len() > 0 {
        lemma_nonblank_of_trimmed(ls.drop_last());
        assert(ls.last() == ls[ls.len() - 1]);
        assert(ls.drop_last().push(ls.last()) =~= ls);
    }
}

/// `line` splits back into the name, date text and colour text of `f` and
/// a price text that `price_text` can write for its price, and the colour
/// text reads back as the colour.
pub open spec fn reads_back<P, F: Fn(&P) -> String>(f: Fuel<P>, price_text: F, line: Seq<char>) -> bool {
    exists|pt: String|
        {
            &&& call_ensures(price_text, (&f.price,), pt)
            &&& split_record_spec(line) == Ok::<FieldsView, Seq<char>>(
                (f.name@, date_text_spec(f.date, record_date_format()), pt@, color_text_spec(f.color)),
            )
            &&& color_spec(color_text_spec(f.color)) == Ok::<(u8, u8, u8), Seq<char>>(f.color)
        }
}

/// Saved records read back: when every name is writable and not empty,
/// every written date is writable, and every price text the writer can give
/// is writable, the record lines of the saved text are exactly the saved
/// lines, and each splits back into the record's name, its date text, the
/// price text written, and its colour text, which reads back as its colour.
pub proof fn lemma_saved_records_read_back<P, F: Fn(&P) -> String>(
    xs: Seq<Fuel<P>>,
    price_text: F,
    ls: Seq<Seq<char>>,
)
    requires
        lines_of(xs, price_text, ls),
        forall|i: int| 0 <= i < xs.len() ==> writable(#[trigger] xs[i].name@) && xs[i].name@.len() > 0,
        forall|i: int| 0 <= i < xs.len() ==> writable(date_text_spec(#[trigger] xs[i].date, record_date_format())),
        forall|p: &P, t: String| call_ensures(price_text, (p,), t) ==> writable(t@),
    ensures
        record_lines(join(ls, seq!['\n'])) == ls,
        forall|i: int| 0 <= i < xs.len() ==> reads_back(xs[i], price_text, #[trigger] ls[i]),
{
    assert forall|i: int| 0 <= i < ls.len() implies trim(#[trigger] ls[i]) == ls[i] && ls[i].len() > 0
        && ls[i].last() != '\r' && (forall|j: int| 0 <= j < ls[i].len() ==> ls[i][j] != '\n') by {
        let f = xs[i];
        assert(line_of(f, price_text, ls[i]));
        let pt = choose|pt: String|
            call_ensures(price_text, (&f.price,), pt) && ls[i] == record_line_spec(
                f.name@,
                date_text_spec(f.date, record_date_format()),
                pt@,
                f.color,
            );
        lemma_record_line_writable(f.name@, date_text_spec(f.date, record_date_format()), pt@, f.color);
    }
    lemma_lines_of_join(ls);
    lemma_nonblank_of_trimmed(ls);
    assert forall|i: int| 0 <= i < xs.len() implies reads_back(xs[i], price_text, #[trigger] ls[i])
    by {
        let f = xs[i];
        assert(line_of(f, price_text, ls[i]));
        let pt = choose|pt: String|
            call_ensures(price_text, (&f.price,), pt) && ls[i] == record_line_spec(
                f.name@,
                date_text_spec(f.date, record_date_format()),
                pt@,
                f.color,
            );
        lemma_color_text_writable(f.color);
        lemma_record_line_round_trip(
            f.name@,
            date_text_spec(f.date, record_date_format()),
            pt@,
            color_text_spec(f.color),
        );
        lemma_color_round_trip(f.color);
        assert(record_line_spec(f.name@, date_text_spec(f.date, record_date_format()), pt@, f.color)
            == f.name@ + ","@ + date_text_spec(f.date, record_date_format()) + ","@ + pt@ + ","@
            + color_text_spec(f.color));
        assert(split_record_spec(ls[i]) == Ok::<FieldsView, Seq<char>>((
            f.name@,
            date_text_spec(f.date, record_date_format()),
            pt@,
            color_text_spec(f.color),
        )));
    }
}

/// When every outcome is a record, the records are the outcomes' values.
proof fn lemma_oks_all<T>(rs: Seq<Result<T, String>>)
    requires
        forall|i: int| 0 <= i < rs.len() ==> #[trigger] rs[i] is Ok,
    ensures
        oks(rs).len() == rs.len(),
        forall|i: int| 0 <= i < rs.len() ==> Ok::<T, String>(#[trigger] oks(rs)[i]) == rs[i],
    decreases rs.len(),
{
    if rs.len() > 0 {
        let front = rs.drop_last();
        assert forall|i: int| 0 <= i < front.len() implies #[trigger] front[i] is Ok by {
            assert(front[i] == rs[i]);
        }
        lemma_oks_all(front);
        assert(rs.last() == rs[rs.len() - 1]);
        assert forall|i: int| 0 <= i < rs.len() implies Ok::<T, String>(#[trigger] oks(rs)[i]) == rs[i] by {
            if i < rs.len() - 1 {
                assert(oks(rs)[i] == oks(front)[i]);
                assert(front[i] == rs[i]);
            }
        }
    }
}

/// Saved records load back as the same records: when every name is writable
/// and not empty, every written date text is writable and reads back through
/// chrono as the date, and every price text the writer can give is writable
/// and is read back by the price reader as the price, then whatever reading
/// the saved text gives holds, in order, records with the same name, date,
/// price and colour as the saved ones.
pub proof fn lemma_saved_records_load_back<P, F: Fn(&P) -> String, G: Fn(&String) -> Result<P, String>>(
    xs: Seq<Fuel<P>>,
    price_text: F,
    parse_price: G,
    ls: Seq<Seq<char>>,
    outs: Seq<Result<Fuel<P>, String>>,
)
    requires
        lines_of(xs, price_text, ls),
        forall|i: int| 0 <= i < xs.len() ==> writable(#[trigger] xs[i].name@) && xs[i].name@.len() > 0,
        forall|i: int| 0 <= i < xs.len() ==> writable(date_text_spec(#[trigger] xs[i].date, record_date_format())),
        forall|i: int| 0 <= i < xs.len() ==> chrono_date(date_text_spec(#[trigger] xs[i].date, record_date_format()))
            == Some(xs[i].date),
        forall|p: &P, t: String| call_ensures(price_text, (p,), t) ==> writable(t@),
        forall|i: int, t: String, s: String, r: Result<P, String>|
            #![trigger call_ensures(price_text, (&xs[i].price,), t), call_ensures(parse_price, (&s,), r)]
            0 <= i < xs.len() && call_ensures(price_text, (&xs[i].price,), t) && s@ == t@ && call_ensures(
                parse_price,
                (&s,),
                r,
            ) ==> r == Ok::<P, String>(xs[i].price),
        read_each(record_lines(join(ls, seq!['\n'])), parse_price, outs),
    ensures
        oks(outs).len() == xs.len(),
        forall|i: int| 0 <= i < xs.len() ==> {
            &&& (#[trigger] oks(outs)[i]).name@ == xs[i].name@
            &&& oks(outs)[i].date == xs[i].date
            &&& oks(outs)[i].price == xs[i].price
            &&& oks(outs)[i].color == xs[i].color
        },
{
    lemma_saved_records_read_back(xs, price_text, ls);
    assert(record_lines(join(ls, seq!['\n'])) == ls);
    assert forall|i: int| 0 <= i < outs.len() implies {
        &&& #[trigger] outs[i] is Ok
        &&& outs[i]->Ok_0.name@ == xs[i].name@
        &&& outs[i]->Ok_0.date == xs[i].date
        &&& outs[i]->Ok_0.price == xs[i].price
        &&& outs[i]->Ok_0.color == xs[i].color
    } by {
        let f = xs[i];
        assert(reads_back(f, price_text, ls[i]));
        let pt = choose|pt: String|
            {
                &&& call_ensures(price_text, (&f.price,), pt)
                &&& split_record_spec(ls[i]) == Ok::<FieldsView, Seq<char>>(
                    (f.name@, date_text_spec(f.date, record_date_format()), pt@, color_text_spec(f.color)),
                )
                &&& color_spec(color_text_spec(f.color)) == Ok::<(u8, u8, u8), Seq<char>>(f.color)
            };
        let t: FieldsView = (f.name@, date_text_spec(f.date, record_date_format()), pt@, color_text_spec(f.color));
        assert(parsed_from(ls[i], parse_price, outs[i]));
        let (ps, pr) = choose|ps: String, pr: Result<P, String>|
            ps@ == t.2 && call_ensures(parse_price, (&ps,), pr) && fuel_match(
                outs[i],
                finish_spec(t, price_view(pr)),
            );
        assert(pr == Ok::<P, String>(f.price));
        assert(date_spec(t.1) == Ok::<FuelDate, Seq<char>>(f.date));
    }
    lemma_oks_all(outs);
}

/// `y` is an item of `xs` that `keep` keeps.
pub open spec fn kept_item<T>(xs: Seq<T>, keep: Seq<bool>, y: T) -> bool {
    exists|i: int| 0 <= i < xs.len() && keep[i] && y == xs[i]
}

/// Every item that `filter_by` gives is an item of `xs` that is kept.
proof fn lemma_filter_by_items<T>(xs: Seq<T>, keep: Seq<bool>)
    requires
        keep.len() == xs.len(),
    ensures
        filter_by(xs, keep).len() <= xs.len(),
        forall|j: int| 0 <= j < filter_by(xs, keep).len() ==> kept_item(xs, keep, #[trigger] filter_by(xs, keep)[j]),
        forall|i: int| 0 <= i < xs.len() && keep[i] ==> filter_by(xs, keep).contains(#[trigger] xs[i]),
    decreases xs.len(),
{
    if xs.len() > 0 {
        let f0 = filter_by(xs.drop_last(), keep.drop_last());
        lemma_filter_by_items(xs.drop_last(), keep.drop_last());
        let f = filter_by(xs, keep);
        assert forall|j: int| 0 <= j < filter_by(xs, keep).len() implies kept_item(xs, keep, #[trigger] filter_by(xs, keep)[j]) by {
            if j < f0.len() {
                assert(kept_item(xs.drop_last(), keep.drop_last(), f0[j]));
                let i = choose|i: int|
                    0 <= i < xs.drop_last().len() && keep.drop_last()[i] && f0[j] == xs.drop_last()[i];
                assert(f[j] == f0[j]);
                assert(keep[i] && f[j] == xs[i]);
            } else {
                assert(keep[xs.len() - 1] && f[j] == xs[xs.len() - 1]);
            }
        }
        assert forall|i: int| 0 <= i < xs.len() && keep[i] implies f.contains(#[trigger] xs[i]) by {
            if i < xs.len() - 1 {
                assert(keep.drop_last()[i] && xs.drop_last()[i] == xs[i]);
                assert(f0.contains(xs[i]));
                let j = choose|j: int| 0 <= j < f0.len() && f0[j] == xs[i];
                assert(f[j] == f0[j]);
            } else {
                assert(f[f.len() - 1] == xs[i]);
            }
        }
    }
}

/// Removal by a condition leaves no matching record and keeps every record
/// that does not match: each record that remains is one of the records
/// given, on which the test answers no; each record on which the test can
/// only answer no remains.
pub proof fn lemma_removal_leaves_no_match<P, F: Fn(&P, ConditionOperator, &String) -> bool>(
    cond: Condition,
    price_test: F,
    xs: Seq<Fuel<P>>,
    ys: Seq<Fuel<P>>,
)
    requires
        removed_where(cond, price_test, xs, ys),
    ensures
        ys.len() <= xs.len(),
        forall|j: int| 0 <= j < ys.len() ==> xs.contains(#[trigger] ys[j]) && condition_holds(cond, ys[j], price_test, false),
        forall|i: int|
            0 <= i < xs.len() && (forall|b: bool| condition_holds(cond, xs[i], price_test, b) ==> !b)
                ==> ys.contains(#[trigger] xs[i]),
{
    let keep = choose|keep: Seq<bool>|
        {
            &&& keep.len() == xs.len()
            &&& forall|i: int| 0 <= i < xs.len() ==> condition_holds(cond, xs[i], price_test, !#[trigger] keep[i])
            &&& ys == filter_by(xs, keep)
        };
    lemma_filter_by_items(xs, keep);
    assert forall|j: int| 0 <= j < ys.len() implies xs.contains(#[trigger] ys[j]) && condition_holds(
        cond,
        ys[j],
        price_test,
        false,
    ) by {
        assert(kept_item(xs, keep, filter_by(xs, keep)[j]));
        let i = choose|i: int| 0 <= i < xs.len() && keep[i] && filter_by(xs, keep)[j] == xs[i];
        assert(condition_holds(cond, xs[i], price_test, !keep[i]));
    }
    assert forall|i: int|
        0 <= i < xs.len() && (forall|b: bool| condition_holds(cond, xs[i], price_test, b) ==> !b)
            implies ys.contains(#[trigger] xs[i]) by {
        assert(condition_holds(cond, xs[i], price_test, !keep[i]));
    }
}

} // verus!
