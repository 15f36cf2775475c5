//! A fuel record, the reading of one record from a line of text
//! `<name>,<yyyy.mm.dd hh:mm>,<price>,<r>:<g>:<b>`, and its writing as such
//! a line and for display.
//!
//! The price is held as a value of the type parameter `P`: it is a
//! floating-point number in the application, and reading it from text and
//! writing it as text are the caller's functions `parse_price` and
//! `price_text`.
use vstd::prelude::*;
use crate::text::{lemma_trim_start_of_plain, lemma_trim_end_of_plain, is_space, trim_start, trim_end, lemma_trim_idempotent, lemma_split_on_concat, lemma_split_on_single, lemma_decimal_digits, chars_of, string_of, string_chars, trim, trim_chars, split_on, split_chars, views, decimal, push_decimal, push_str, push_chars, concat3};
use crate::number::{lemma_parse_u8_decimal, IntErrorKind, parse_u8, parse_u8_chars, int_error_text, push_int_error};
use crate::date::{FuelDate, chrono_date, parse_date_time, chrono_format, format_date_time, record_date_format, display_date_format};

verus! {

/// A fuel record: name, date, price and display colour.
#[derive(Debug, PartialEq)]
pub struct Fuel<P> {
    pub name: String,
    pub date: FuelDate,
    pub price: P,
    pub color: (u8, u8, u8),
}

impl<P: Clone> Clone for Fuel<P> {
    /// A copy of the record; the price is copied by its own `clone`.
    fn clone(&self) -> (r: Self)
        ensures
            r.name@ == self.name@,
            r.date == self.date,
            r.color == self.color,
            call_ensures(P::clone, (&self.price,), r.price),
    {
        Fuel { name: self.name.clone(), date: self.date, price: self.price.clone(), color: self.color }
    }
}

/// The four trimmed fields of a record line, still as text.
#[derive(Debug, Clone, PartialEq)]
pub struct RecordFields {
    pub name: String,
    pub date: String,
    pub price: String,
    pub color: String,
}

/// The text of a record's fields: name, date, price, colour.
pub type FieldsView = (Seq<char>, Seq<char>, Seq<char>, Seq<char>);

/// The fields of a record line, or the error for it: the line is trimmed;
/// an empty line is refused; it must hold exactly four comma-separated
/// parts; each part is trimmed, and the name must not be empty.
pub open spec fn split_record_spec(input: Seq<char>) -> Result<FieldsView, Seq<char>> {
    let t = trim(input);
    if t.len() == 0 {
        Err("Empty input"@)
    } else {
        let ps = split_on(t, ',');
        if ps.len() != 4 {
            Err("Input must have four parts separated by commas, got "@ + decimal(ps.len()))
        } else if trim(ps[0]).len() == 0 {
            Err("Name cannot be empty"@)
        } else {
            Ok((trim(ps[0]), trim(ps[1]), trim(ps[2]), trim(ps[3])))
        }
    }
}

/// `r` is the outcome `s` in executable form.
pub open spec fn fields_match(r: Result<RecordFields, String>, s: Result<FieldsView, Seq<char>>) -> bool {
    match (r, s) {
        (Ok(f), Ok(t)) => f.name@ == t.0 && f.date@ == t.1 && f.price@ == t.2 && f.color@ == t.3,
        (Err(e), Err(m)) => e@ == m,
        _ => false,
    }
}

/// The colour of a record, or the error for it: three `:`-separated parts,
/// each read as `str::parse::<u8>` reads it (parts are not trimmed).
pub open spec fn color_spec(s: Seq<char>) -> Result<(u8, u8, u8), Seq<char>> {
    let ps = split_on(s, ':');
    if ps.len() != 3 {
        Err("Invalid color format '"@ + s + "', expected u8:u8:u8"@)
    } else {
        match parse_u8(ps[0]) {
            Err(k) => Err("Failed to parse color R '"@ + ps[0] + "': "@ + int_error_text(k)),
            Ok(r) => match parse_u8(ps[1]) {
                Err(k) => Err("Failed to parse color G '"@ + ps[1] + "': "@ + int_error_text(k)),
                Ok(g) => match parse_u8(ps[2]) {
                    Err(k) => Err("Failed to parse color B '"@ + ps[2] + "': "@ + int_error_text(k)),
                    Ok(b) => Ok((r, g, b)),
                },
            },
        }
    }
}

/// The date of a record, or the error for it.
pub open spec fn date_spec(s: Seq<char>) -> Result<FuelDate, Seq<char>> {
    match chrono_date(s) {
        Some(d) => Ok(d),
        None => Err("Invalid date format '"@ + s + "', expected yyyy.mm.dd hh:mm"@),
    }
}

/// The view of a price outcome.
pub open spec fn price_view<P>(pr: Result<P, String>) -> Result<P, Seq<char>> {
    match pr {
        Ok(p) => Ok(p),
        Err(e) => Err(e@),
    }
}

/// The contents of a record: name, date, price and colour.
pub type RecordView<P> = (Seq<char>, FuelDate, P, (u8, u8, u8));

/// The record made of its fields once the price has been read (or has
/// failed): a price error comes first, then a colour error, then a date
/// error.
pub open spec fn finish_spec<P>(f: FieldsView, price: Result<P, Seq<char>>) -> Result<RecordView<P>, Seq<char>> {
    match price {
        Err(e) => Err("Failed to parse price '"@ + f.2 + "': "@ + e),
        Ok(p) => match color_spec(f.3) {
            Err(m) => Err(m),
            Ok(c) => match date_spec(f.1) {
                Err(m) => Err(m),
                Ok(d) => Ok((f.0, d, p, c)),
            },
        },
    }
}

/// `r` is the outcome `s` in executable form.
pub open spec fn fuel_match<P>(r: Result<Fuel<P>, String>, s: Result<RecordView<P>, Seq<char>>) -> bool {
    match (r, s) {
        (Ok(f), Ok(t)) => f.name@ == t.0 && f.date == t.1 && f.price == t.2 && f.color == t.3,
        (Err(e), Err(m)) => e@ == m,
        _ => false,
    }
}

/// `r` is what reading the line `input` gives when the price text is read by
/// `parse_price`: an error of the line's shape, or else what
/// `finish_spec` makes of the fields and of one outcome of `parse_price` on
/// the price field.
pub open spec fn parsed_from<P, F: Fn(&String) -> Result<P, String>>(
    input: Seq<char>,
    parse_price: F,
    r: Result<Fuel<P>, String>,
) -> bool {
    match split_record_spec(input) {
        Err(m) => r matches Err(e) && e@ == m,
        Ok(t) => exists|ps: String, pr: Result<P, String>|
            ps@ == t.2 && call_ensures(parse_price, (&ps,), pr) && fuel_match(
                r,
                finish_spec(t, price_view(pr)),
            ),
    }
}

/// An owned string holding the literal `s`.
pub fn owned(s: &str) -> (r: String)
    ensures
        r@ == s@,
{
    s.to_owned()
}

/// Splits a record line into its four trimmed fields.
pub fn split_record(input: &str) -> (r: Result<RecordFields, String>)
    ensures
        fields_match(r, split_record_spec(input@)),
{
    let cs = chars_of(input);
    let t = trim_chars(cs.as_slice());
    if t.len() == 0 {
        return Err(owned("Empty input"));
    }
    let ps = split_chars(t.as_slice(), ',');
    if ps.len() != 4 {
        let mut out: Vec<char> = Vec::new();
        push_str(&mut out, "Input must have four parts separated by commas, got ");
        push_decimal(&mut out, ps.len());
        return Err(string_of(out.as_slice()));
    }
    assert(views(ps@)[0] == ps@[0]@);
    assert(views(ps@)[1] == ps@[1]@);
    assert(views(ps@)[2] == ps@[2]@);
    assert(views(ps@)[3] == ps@[3]@);
    let name = trim_chars(ps[0].as_slice());
    if name.len() == 0 {
        return Err(owned("Name cannot be empty"));
    }
    let date = trim_chars(ps[1].as_slice());
    let price = trim_chars(ps[2].as_slice());
    let color = trim_chars(ps[3].as_slice());
    Ok(
        RecordFields {
            name: string_of(name.as_slice()),
            date: string_of(date.as_slice()),
            price: string_of(price.as_slice()),
            color: string_of(color.as_slice()),
        },
    )
}

/// The message for a colour part that does not read as a `u8`.
fn color_part_error(lead: &str, part: &Vec<char>, k: IntErrorKind) -> (r: String)
    ensures
        r@ == lead@ + part@ + "': "@ + int_error_text(k),
{
    let mut out: Vec<char> = Vec::new();
    push_str(&mut out, lead);
    push_chars(&mut out, part.as_slice());
    push_str(&mut out, "': ");
    push_int_error(&mut out, k);
    string_of(out.as_slice())
}

impl<P> Fuel<P> {
    /// A record to start from: named "Not defined", dated `now`, black,
    /// with the given placeholder price.
    pub fn new_at(unset_price: P, now: FuelDate) -> (f: Self)
        ensures
            f.name@ == "Not defined"@,
            f.date == now,
            f.price == unset_price,
            f.color == (0u8, 0u8, 0u8),
    {
        Fuel { name: owned("Not defined"), date: now, price: unset_price, color: (0, 0, 0) }
    }

    /// A record to start from: named "Not defined", dated by the clock now,
    /// black, with the given placeholder price.
    pub fn new(unset_price: P) -> (f: Self)
        ensures
            f.name@ == "Not defined"@,
            f.price == unset_price,
            f.color == (0u8, 0u8, 0u8),
            chrono_format(f.date, record_date_format()) is Some,
    {
        Self::new_at(unset_price, FuelDate::now())
    }

    /// A record of the given fields.
    pub fn new_param(name: String, date: FuelDate, price: P, color: (u8, u8, u8)) -> (f: Self)
        ensures
            f.name == name,
            f.date == date,
            f.price == price,
            f.color == color,
    {
        Fuel { name, date, price, color }
    }

    /// Reads a colour written `r:g:b`.
    pub fn parse_color(color_string: &str) -> (r: Result<(u8, u8, u8), String>)
        ensures
            match (r, color_spec(color_string@)) {
                (Ok(c), Ok(d)) => c == d,
                (Err(e), Err(m)) => e@ == m,
                _ => false,
            },
    {
        let cs = chars_of(color_string);
        let ps = split_chars(cs.as_slice(), ':');
        if ps.len() != 3 {
            return Err(concat3("Invalid color format '", cs.as_slice(), "', expected u8:u8:u8"));
        }
        assert(views(ps@)[0] == ps@[0]@);
        assert(views(ps@)[1] == ps@[1]@);
        assert(views(ps@)[2] == ps@[2]@);
        let r = match parse_u8_chars(ps[0].as_slice()) {
            Ok(v) => v,
            Err(k) => return Err(color_part_error("Failed to parse color R '", &ps[0], k)),
        };
        let g = match parse_u8_chars(ps[1].as_slice()) {
            Ok(v) => v,
            Err(k) => return Err(color_part_error("Failed to parse color G '", &ps[1], k)),
        };
        let b = match parse_u8_chars(ps[2].as_slice()) {
            Ok(v) => v,
            Err(k) => return Err(color_part_error("Failed to parse color B '", &ps[2], k)),
        };
        Ok((r, g, b))
    }

    /// Reads a date written `yyyy.mm.dd hh:mm`.
    pub fn parse_date(input: &str) -> (r: Result<FuelDate, String>)
        ensures
            match (r, date_spec(input@)) {
                (Ok(d), Ok(e)) => d == e,
                (Err(e), Err(m)) => e@ == m,
                _ => false,
            },
    {
        match parse_date_time(input) {
            Some(d) => Ok(d),
            None => {
                let cs = chars_of(input);
                Err(concat3("Invalid date format '", cs.as_slice(), "', expected yyyy.mm.dd hh:mm"))
            },
        }
    }

    /// Makes a record of split fields and of the outcome of reading the price.
    pub fn from_fields(fields: RecordFields, price: Result<P, String>) -> (r: Result<Self, String>)
        ensures
            fuel_match(r, finish_spec((fields.name@, fields.date@, fields.price@, fields.color@), price_view(price))),
    {
        let p = match price {
            Ok(p) => p,
            Err(e) => {
                let pcs = string_chars(&fields.price);
                let ecs = string_chars(&e);
                let mut out: Vec<char> = Vec::new();
                push_str(&mut out, "Failed to parse price '");
                push_chars(&mut out, pcs.as_slice());
                push_str(&mut out, "': ");
                push_chars(&mut out, ecs.as_slice());
                return Err(string_of(out.as_slice()));
            },
        };
        let color = match Self::parse_color(fields.color.as_str()) {
            Ok(c) => c,
            Err(m) => return Err(m),
        };
        let date = match Self::parse_date(fields.date.as_str()) {
            Ok(d) => d,
            Err(m) => return Err(m),
        };
        Ok(Fuel { name: fields.name, date, price: p, color })
    }

    /// Reads a record from a line `<name>,<yyyy.mm.dd hh:mm>,<price>,<r>:<g>:<b>`;
    /// the price field is read by `parse_price`.
    pub fn from_string<F: Fn(&String) -> Result<P, String>>(input: &str, parse_price: &F) -> (r: Result<Self, String>)
        requires
            forall|s: &String| parse_price.requires((s,)),
        ensures
            parsed_from(input@, *parse_price, r),
    {
        let fields = match split_record(input) {
            Ok(f) => f,
            Err(m) => return Err(m),
        };
        let pr = parse_price(&fields.price);
        let ghost ps = fields.price;
        let ghost t = (fields.name@, fields.date@, fields.price@, fields.color@);
        let r = Self::from_fields(fields, pr);
        assert(ps@ == t.2 && call_ensures(*parse_price, (&ps,), pr) && fuel_match(r, finish_spec(t, price_view(pr))));
        r
    }
}

/// The text of a colour, `r:g:b` in decimal, as records are written.
pub open spec fn color_text_spec(c: (u8, u8, u8)) -> Seq<char> {
    decimal(c.0 as nat) + ":"@ + decimal(c.1 as nat) + ":"@ + decimal(c.2 as nat)
}

/// The text of a colour, `r:g:b` in decimal.
pub fn color_text(c: (u8, u8, u8)) -> (t: String)
    ensures
        t@ == color_text_spec(c),
{
    let mut out: Vec<char> = Vec::new();
    push_decimal(&mut out, c.0 as usize);
    push_str(&mut out, ":");
    push_decimal(&mut out, c.1 as usize);
    push_str(&mut out, ":");
    push_decimal(&mut out, c.2 as usize);
    string_of(out.as_slice())
}

/// The date text that a record line or display holds: chrono's text in the
/// format `fmt`, or nothing where the fields are no date.
pub open spec fn date_text_spec(d: FuelDate, fmt: Seq<char>) -> Seq<char> {
    match chrono_format(d, fmt) {
        Some(t) => t,
        None => Seq::empty(),
    }
}

/// A record as a line of the save format: `name,date,price,r:g:b`.
pub open spec fn record_line_spec(name: Seq<char>, date: Seq<char>, price: Seq<char>, color: (u8, u8, u8)) -> Seq<char> {
    name + ","@ + date + ","@ + price + ","@ + color_text_spec(color)
}

/// A record as it is displayed: `Name: n, Date: d, Price: p, Color r:g:b`.
pub open spec fn display_spec(name: Seq<char>, date: Seq<char>, price: Seq<char>, color: (u8, u8, u8)) -> Seq<char> {
    "Name: "@ + name + ", Date: "@ + date + ", Price: "@ + price + ", Color "@ + color_text_spec(color)
}

/// `line` is the save-format line of `f`, with one outcome of `price_text`
/// for the price.
pub open spec fn line_of<P, F: Fn(&P) -> String>(f: Fuel<P>, price_text: F, line: Seq<char>) -> bool {
    exists|pt: String|
        call_ensures(price_text, (&f.price,), pt) && line == record_line_spec(
            f.name@,
            date_text_spec(f.date, record_date_format()),
            pt@,
            f.color,
        )
}

/// `text` is the display form of `f`, with one outcome of `price_text` for
/// the price.
pub open spec fn display_of<P, F: Fn(&P) -> String>(f: Fuel<P>, price_text: F, text: Seq<char>) -> bool {
    exists|pt: String|
        call_ensures(price_text, (&f.price,), pt) && text == display_spec(
            f.name@,
            date_text_spec(f.date, display_date_format()),
            pt@,
            f.color,
        )
}

/// The date of `d` in the format `fmt`, or nothing.
fn date_chars(d: &FuelDate, fmt: &str) -> (r: Vec<char>)
    requires
        fmt@ == record_date_format() || fmt@ == display_date_format(),
    ensures
        r@ == date_text_spec(*d, fmt@),
{
    match format_date_time(d, fmt) {
        Some(t) => string_chars(&t),
        None => Vec::new(),
    }
}

impl<P> Fuel<P> {
    /// The record as a line of the save format; `price_text` writes the price.
    pub fn record_line<F: Fn(&P) -> String>(&self, price_text: &F) -> (r: String)
        requires
            forall|p: &P| price_text.requires((p,)),
        ensures
            line_of(*self, *price_text, r@),
    {
        let pt = price_text(&self.price);
        let mut out: Vec<char> = Vec::new();
        push_chars(&mut out, string_chars(&self.name).as_slice());
        push_str(&mut out, ",");
        push_chars(&mut out, date_chars(&self.date, "%Y.%m.%d %H:%M").as_slice());
        push_str(&mut out, ",");
        push_chars(&mut out, string_chars(&pt).as_slice());
        push_str(&mut out, ",");
        push_chars(&mut out, string_chars(&color_text(self.color)).as_slice());
        let r = string_of(out.as_slice());
        assert(r@ =~= record_line_spec(
            self.name@,
            date_text_spec(self.date, record_date_format()),
            pt@,
            self.color,
        ));
        assert(call_ensures(*price_text, (&self.price,), pt));
        r
    }

    /// The record as it is displayed; `price_text` writes the price.
    pub fn to_display_string<F: Fn(&P) -> String>(&self, price_text: &F) -> (r: String)
        requires
            forall|p: &P| price_text.requires((p,)),
        ensures
            display_of(*self, *price_text, r@),
    {
        let pt = price_text(&self.price);
        let mut out: Vec<char> = Vec::new();
        push_str(&mut out, "Name: ");
        push_chars(&mut out, string_chars(&self.name).as_slice());
        push_str(&mut out, ", Date: ");
        push_chars(&mut out, date_chars(&self.date, "%Y-%m-%d %H:%M:%S").as_slice());
        push_str(&mut out, ", Price: ");
        push_chars(&mut out, string_chars(&pt).as_slice());
        push_str(&mut out, ", Color ");
        push_chars(&mut out, string_chars(&color_text(self.color)).as_slice());
        let r = string_of(out.as_slice());
        assert(r@ =~= display_spec(
            self.name@,
            date_text_spec(self.date, display_date_format()),
            pt@,
            self.color,
        ));
        assert(call_ensures(*price_text, (&self.price,), pt));
        r
    }
}

/// A colour written as records write it reads back as the same colour.
pub proof fn lemma_color_round_trip(c: (u8, u8, u8))
    ensures
        color_spec(color_text_spec(c)) == Ok::<(u8, u8, u8), Seq<char>>(c),
{
    let a = decimal(c.0 as nat);
    let b = decimal(c.1 as nat);
    let d = decimal(c.2 as nat);
    reveal_strlit(":");
    assert(":"@ =~= seq![':']);
    lemma_decimal_digits(c.0 as nat);
    lemma_decimal_digits(c.1 as nat);
    lemma_decimal_digits(c.2 as nat);
    lemma_split_on_single(a, ':');
    lemma_split_on_single(b, ':');
    lemma_split_on_single(d, ':');
    lemma_split_on_concat(a, ':', b);
    lemma_split_on_concat(a + seq![':'] + b, ':', d);
    assert(color_text_spec(c) =~= (a + seq![':'] + b) + seq![':'] + d);
    let ps = split_on(color_text_spec(c), ':');
    assert(ps =~= seq![a, b, d]);
    lemma_parse_u8_decimal(c.0);
    lemma_parse_u8_decimal(c.1);
    lemma_parse_u8_decimal(c.2);
}

/// White space around a record line does not change what it reads as.
pub proof fn lemma_record_ignores_outer_space(input: Seq<char>)
    ensures
        split_record_spec(trim(input)) == split_record_spec(input),
{
    lemma_trim_idempotent(input);
}

/// A field that can be written between commas and read back unchanged:
/// it holds no comma and has no white space at either end.
pub open spec fn plain_field(f: Seq<char>) -> bool {
    &&& forall|i: int| 0 <= i < f.len() ==> f[i] != ','
    &&& trim(f) == f
}

/// A record line written as `name,date,price,colour` from plain fields,
/// with a name that is not empty, splits back into the same four fields.
pub proof fn lemma_record_line_round_trip(n: Seq<char>, d: Seq<char>, p: Seq<char>, c: Seq<char>)
    requires
        plain_field(n),
        plain_field(d),
        plain_field(p),
        plain_field(c),
        n.len() > 0,
    ensures
        split_record_spec(n + ","@ + d + ","@ + p + ","@ + c) == Ok::<FieldsView, Seq<char>>((n, d, p, c)),
{
    reveal_strlit(",");
    let k = seq![','];
    assert(","@ =~= k);
    let line = n + k + d + k + p + k + c;
    assert(n + ","@ + d + ","@ + p + ","@ + c =~= line);
    lemma_trim_start_of_plain(n);
    assert(!is_space(n[0]));
    assert(line[0] == n[0]);
    assert(trim_start(line) == line);
    if c.len() > 0 {
        lemma_trim_end_of_plain(c);
        assert(line.last() == c.last());
    } else {
        assert(line.last() == ',');
    }
    assert(trim_end(line) == line);
    lemma_split_on_single(n, ',');
    lemma_split_on_single(d, ',');
    lemma_split_on_single(p, ',');
    lemma_split_on_single(c, ',');
    lemma_split_on_concat(n, ',', d);
    lemma_split_on_concat(n + k + d, ',', p);
    lemma_split_on_concat(n + k + d + k + p, ',', c);
    assert(split_on(line, ',') =~= seq![n, d, p, c]);
}

/// A field that a saved line can hold and give back: a plain field without
/// a line break.
pub open spec fn writable(f: Seq<char>) -> bool {
    &&& plain_field(f)
    &&& forall|i: int| 0 <= i < f.len() ==> f[i] != '\n'
}

/// The text of a colour is writable, not empty, and ends in a digit.
pub proof fn lemma_color_text_writable(c: (u8, u8, u8))
    ensures
        writable(color_text_spec(c)),
        color_text_spec(c).len() > 0,
        48 <= color_text_spec(c).last() as int <= 57,
{
    let a = decimal(c.0 as nat);
    let b = decimal(c.1 as nat);
    let d = decimal(c.2 as nat);
    reveal_strlit(":");
    assert(":"@ =~= seq![':']);
    lemma_decimal_digits(c.0 as nat);
    lemma_decimal_digits(c.1 as nat);
    lemma_decimal_digits(c.2 as nat);
    let t = color_text_spec(c);
    assert(t =~= a + seq![':'] + b + seq![':'] + d);
    assert forall|i: int| 0 <= i < t.len() implies t[i] != ',' && t[i] != '\n' && (48 <= t[i] as int
        <= 58) by {
        if i < a.len() {
            assert(t[i] == a[i]);
        } else if i == a.len() {
        } else if i < a.len() + 1 + b.len() {
            assert(t[i] == b[i - a.len() - 1]);
        } else if i == a.len() + 1 + b.len() {
        } else {
            assert(t[i] == d[i - a.len() - 2 - b.len()]);
        }
    }
    assert(a.len() > 0 && d.len() > 0);
    assert(t[0] == a[0]);
    assert(t.last() == d.last());
    assert(d.last() == d[d.len() - 1]);
    assert(!is_space(t[0]));
    assert(!is_space(t.last()));
    assert(trim_start(t) == t);
    assert(trim_end(t) == t);
}

/// A save-format line of writable fields, with a name that is not empty, is
/// itself trimmed, not empty, free of line breaks, and does not end in a
/// carriage return.
pub proof fn lemma_record_line_writable(n: Seq<char>, d: Seq<char>, p: Seq<char>, c: (u8, u8, u8))
    requires
        writable(n),
        writable(d),
        writable(p),
        n.len() > 0,
    ensures
        trim(record_line_spec(n, d, p, c)) == record_line_spec(n, d, p, c),
        record_line_spec(n, d, p, c).len() > 0,
        record_line_spec(n, d, p, c).last() != '\r',
        forall|i: int| 0 <= i < record_line_spec(n, d, p, c).len() ==> record_line_spec(n, d, p, c)[i] != '\n',
{
    reveal_strlit(",");
    let k = seq![','];
    assert(","@ =~= k);
    let ct = color_text_spec(c);
    lemma_color_text_writable(c);
    let line = n + k + d + k + p + k + ct;
    assert(record_line_spec(n, d, p, c) =~= line);
    lemma_trim_start_of_plain(n);
    assert(line[0] == n[0]);
    assert(trim_start(line) == line);
    assert(line.last() == ct.last());
    assert(ct.last() == ct[ct.len() - 1]);
    assert(trim_end(line) == line);
    assert forall|i: int| 0 <= i < line.len() implies line[i] != '\n' by {
        let o1 = n.len();
        let o2 = o1 + 1 + d.len();
        let o3 = o2 + 1 + p.len();
        if i < o1 {
            assert(line[i] == n[i]);
        } else if i == o1 {
        } else if i < o2 {
            assert(line[i] == d[i - o1 - 1]);
        } else if i == o2 {
        } else if i < o3 {
            assert(line[i] == p[i - o2 - 1]);
        } else if i == o3 {
        } else {
            assert(line[i] == ct[i - o3 - 1]);
        }
    }
}

} // verus!
