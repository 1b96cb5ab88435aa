//! Textual paths into the object graph.
//!
//! A path is a dot/bracket-delimited string such as `body.parts[2].name`: a
//! leading field name, followed by any number of `.name` field steps and
//! `[index]` collection steps. A path is never validated ahead of use; a
//! command re-parses and re-resolves its path on every `execute`/`revert`
//! call, because the graph may have changed in between.

use vstd::prelude::*;
use vstd::string::StrSliceExecFns;
use vstd::string::StringExecFns;

verus! {

/// One step of a parsed path: a named field of a record, or an index into an
/// ordered collection.
#[derive(Debug, PartialEq)]
pub enum PathSeg {
    Field(String),
    Index(usize),
}

/// The model of one path step.
pub enum SegVm {
    Field(Seq<char>),
    Index(int),
}

impl View for PathSeg {
    type V = SegVm;

    open spec fn view(&self) -> SegVm {
        match self {
            PathSeg::Field(n) => SegVm::Field(n@),
            PathSeg::Index(i) => SegVm::Index(*i as int),
        }
    }
}

/// A parsed path: the sequence of steps from the root of a reflective object
/// down to one of its fields.
#[derive(Debug, PartialEq)]
pub struct PropertyPath {
    pub segs: Vec<PathSeg>,
}

/// The models of a sequence of path steps.
pub open spec fn segs_vm(segs: Seq<PathSeg>) -> Seq<SegVm> {
    Seq::new(segs.len(), |i: int| segs[i]@)
}

impl View for PropertyPath {
    type V = Seq<SegVm>;

    open spec fn view(&self) -> Seq<SegVm> {
        segs_vm(self.segs@)
    }
}

/// Characters that may appear in a field name: everything but the three
/// delimiters.
pub open spec fn name_char(c: char) -> bool {
    c != '.' && c != '[' && c != ']'
}

/// A well-formed field name: non-empty and free of delimiters.
pub open spec fn wf_name(n: Seq<char>) -> bool {
    n.len() > 0 && forall|i: int| 0 <= i < n.len() ==> name_char(#[trigger] n[i])
}

/// A decimal digit.
pub open spec fn digit_char(c: char) -> bool {
    '0' as int <= c as int <= '9' as int
}

/// The numeric value of a decimal digit.
pub open spec fn digit_val(c: char) -> int {
    c as int - '0' as int
}

/// The decimal digit with value `d`.
pub open spec fn digit_chr(d: int) -> char {
    seq!['0', '1', '2', '3', '4', '5', '6', '7', '8', '9'][d]
}

/// The canonical decimal rendering of a non-negative integer.
pub open spec fn dec_digits(n: int) -> Seq<char>
    recommends
        n >= 0,
    decreases n,
{
    if n < 10 {
        seq![digit_chr(n)]
    } else {
        dec_digits(n / 10).push(digit_chr(n % 10))
    }
}

/// The value of a string of decimal digits, most significant first.
pub open spec fn digits_val(ds: Seq<char>) -> int
    decreases ds.len(),
{
    if ds.len() == 0 {
        0
    } else {
        digits_val(ds.drop_last()) * 10 + digit_val(ds.last())
    }
}

/// A canonical digit string: non-empty, all digits, no leading zero.
pub open spec fn canonical_digits(ds: Seq<char>) -> bool {
    &&& ds.len() > 0
    &&& forall|i: int| 0 <= i < ds.len() ==> digit_char(#[trigger] ds[i])
    &&& (ds[0] != '0' || ds.len() == 1)
}

/// A well-formed path step: a field step carries a well-formed name, an index
/// step an index a machine word can hold.
pub open spec fn wf_seg(s: SegVm) -> bool {
    match s {
        SegVm::Field(n) => wf_name(n),
        SegVm::Index(i) => 0 <= i <= usize::MAX as int,
    }
}

/// A well-formed path: at least one step, starting at a named field, every
/// step well-formed.
pub open spec fn wf_segs(segs: Seq<SegVm>) -> bool {
    &&& segs.len() > 0
    &&& segs[0] is Field
    &&& forall|i: int| 0 <= i < segs.len() ==> wf_seg(#[trigger] segs[i])
}

/// The text of one step in non-leading position.
pub open spec fn seg_text(s: SegVm) -> Seq<char> {
    match s {
        SegVm::Field(n) => seq!['.'] + n,
        SegVm::Index(i) => seq!['['] + dec_digits(i) + seq![']'],
    }
}

/// The text of every step after the first.
pub open spec fn render_tail(segs: Seq<SegVm>) -> Seq<char>
    decreases segs.len(),
{
    if segs.len() == 0 {
        Seq::empty()
    } else {
        seg_text(segs[0]) + render_tail(segs.skip(1))
    }
}

/// The text of a whole path: the first step loses its leading dot.
pub open spec fn render_segs(segs: Seq<SegVm>) -> Seq<char> {
    if segs.len() == 0 {
        Seq::empty()
    } else {
        (match segs[0] {
            SegVm::Field(n) => n,
            SegVm::Index(_) => seg_text(segs[0]),
        }) + render_tail(segs.skip(1))
    }
}

/// The length of the longest prefix of `s` made of name characters.
pub open spec fn name_run(s: Seq<char>) -> int
    decreases s.len(),
{
    if s.len() == 0 || !name_char(s[0]) {
        0
    } else {
        1 + name_run(s.skip(1))
    }
}

/// The length of the longest prefix of `s` made of decimal digits.
pub open spec fn digit_run(s: Seq<char>) -> int
    decreases s.len(),
{
    if s.len() == 0 || !digit_char(s[0]) {
        0
    } else {
        1 + digit_run(s.skip(1))
    }
}

pub proof fn lemma_name_run_bounds(s: Seq<char>)
    ensures
        0 <= name_run(s) <= s.len(),
        forall|i: int| 0 <= i < name_run(s) ==> name_char(#[trigger] s[i]),
        name_run(s) < s.len() ==> !name_char(s[name_run(s)]),
    decreases s.len(),
{
    if s.len() > 0 && name_char(s[0]) {
        lemma_name_run_bounds(s.skip(1));
        assert forall|i: int| 0 <= i < name_run(s) implies name_char(#[trigger] s[i]) by {
            if i > 0 {
                assert(s[i] == s.skip(1)[i - 1]);
            }
        }
        if name_run(s) < s.len() {
            assert(s[name_run(s)] == s.skip(1)[name_run(s) - 1]);
        }
    }
}

pub proof fn lemma_digit_run_bounds(s: Seq<char>)
    ensures
        0 <= digit_run(s) <= s.len(),
        forall|i: int| 0 <= i < digit_run(s) ==> digit_char(#[trigger] s[i]),
        digit_run(s) < s.len() ==> !digit_char(s[digit_run(s)]),
    decreases s.len(),
{
    if s.len() > 0 && digit_char(s[0]) {
        lemma_digit_run_bounds(s.skip(1));
        assert forall|i: int| 0 <= i < digit_run(s) implies digit_char(#[trigger] s[i]) by {
            if i > 0 {
                assert(s[i] == s.skip(1)[i - 1]);
            }
        }
        if digit_run(s) < s.len() {
            assert(s[digit_run(s)] == s.skip(1)[digit_run(s) - 1]);
        }
    }
}

/// What remains of a path string after its leading field name: a chain of
/// `.name` and `[index]` steps.
pub open spec fn parse_rest(s: Seq<char>) -> Option<Seq<SegVm>>
    decreases s.len(),
    via parse_rest_decreases
{
    if s.len() == 0 {
        Some(Seq::empty())
    } else if s[0] == '.' {
        let k = name_run(s.skip(1));
        if k == 0 {
            None
        } else {
            match parse_rest(s.skip(1 + k)) {
                Some(rest) => Some(seq![SegVm::Field(s.subrange(1, 1 + k))] + rest),
                None => None,
            }
        }
    } else if s[0] == '[' {
        let d = digit_run(s.skip(1));
        if d == 0 {
            None
        } else if 1 + d >= s.len() {
            None
        } else if s[1 + d] != ']' {
            None
        } else if s[1] == '0' && d > 1 {
            None
        } else if digits_val(s.subrange(1, 1 + d)) > usize::MAX as int {
            None
        } else {
            match parse_rest(s.skip(2 + d)) {
                Some(rest) => Some(seq![SegVm::Index(digits_val(s.subrange(1, 1 + d)))] + rest),
                None => None,
            }
        }
    } else {
        None
    }
}

#[via_fn]
proof fn parse_rest_decreases(s: Seq<char>) {
    if s.len() > 0 && s[0] == '.' {
        lemma_name_run_bounds(s.skip(1));
    }
    if s.len() > 0 && s[0] == '[' {
        lemma_digit_run_bounds(s.skip(1));
    }
}

/// The parse of a whole path string: a leading field name, then the rest.
/// `None` exactly where the string is not the text of any well-formed path.
pub open spec fn parse_path(s: Seq<char>) -> Option<Seq<SegVm>> {
    let k = name_run(s);
    if k == 0 {
        None
    } else {
        match parse_rest(s.skip(k)) {
            Some(rest) => Some(seq![SegVm::Field(s.subrange(0, k))] + rest),
            None => None,
        }
    }
}

proof fn lemma_skip_skip(s: Seq<char>, a: int, b: int)
    requires
        0 <= a,
        0 <= b,
        a + b <= s.len(),
    ensures
        s.skip(a).skip(b) == s.skip(a + b),
{
    assert(s.skip(a).skip(b) =~= s.skip(a + b));
}

/// Counts the name characters from position `from` on.
fn scan_name(s: &str, from: usize) -> (k: usize)
    requires
        from as int <= s@.len(),
    ensures
        k as int == name_run(s@.skip(from as int)),
        from + k <= s@.len(),
    decreases s@.len() - from as int,
{
    proof {
        lemma_name_run_bounds(s@.skip(from as int));
    }
    let n = s.unicode_len();
    if from == n {
        return 0;
    }
    let c = s.get_char(from);
    assert(c == s@.skip(from as int)[0]);
    if c != '.' && c != '[' && c != ']' {
        let k = scan_name(s, from + 1);
        proof {
            lemma_skip_skip(s@, from as int, 1);
        }
        k + 1
    } else {
        0
    }
}

/// Counts the decimal digits from position `from` on.
fn scan_digits(s: &str, from: usize) -> (k: usize)
    requires
        from as int <= s@.len(),
    ensures
        k as int == digit_run(s@.skip(from as int)),
        from + k <= s@.len(),
    decreases s@.len() - from as int,
{
    proof {
        lemma_digit_run_bounds(s@.skip(from as int));
    }
    let n = s.unicode_len();
    if from == n {
        return 0;
    }
    let c = s.get_char(from);
    assert(c == s@.skip(from as int)[0]);
    if '0' <= c && c <= '9' {
        let k = scan_digits(s, from + 1);
        proof {
            lemma_skip_skip(s@, from as int, 1);
        }
        k + 1
    } else {
        0
    }
}

proof fn lemma_digits_val_nonneg(ds: Seq<char>)
    requires
        forall|i: int| 0 <= i < ds.len() ==> digit_char(#[trigger] ds[i]),
    ensures
        digits_val(ds) >= 0,
    decreases ds.len(),
{
    if ds.len() > 0 {
        lemma_digits_val_nonneg(ds.drop_last());
    }
}

/// The value of a digit string never falls when more digits follow.
proof fn lemma_digits_val_prefix(ds: Seq<char>, j: int)
    requires
        forall|i: int| 0 <= i < ds.len() ==> digit_char(#[trigger] ds[i]),
        0 <= j <= ds.len(),
    ensures
        digits_val(ds.take(j)) <= digits_val(ds),
    decreases ds.len() - j,
{
    if j == ds.len() {
        assert(ds.take(j) =~= ds);
    } else {
        lemma_digits_val_prefix(ds, j + 1);
        let t = ds.take(j + 1);
        assert(t.drop_last() =~= ds.take(j));
        assert(t.last() == ds[j]);
        lemma_digits_val_nonneg(ds.take(j));
    }
}

/// Reads the value of the `count` digits at `from`, or reports that it does
/// not fit in a machine word.
fn digits_value(s: &str, from: usize, count: usize) -> (r: Option<usize>)
    requires
        from + count <= s@.len(),
        forall|i: int| from as int <= i < from + count ==> digit_char(#[trigger] s@[i]),
    ensures
        match r {
            Some(v) => v as int == digits_val(s@.subrange(from as int, from + count)),
            None => digits_val(s@.subrange(from as int, from + count)) > usize::MAX as int,
        },
{
    let ghost ds = s@.subrange(from as int, from + count);
    let n = s.unicode_len();
    let mut acc: usize = 0;
    let mut i: usize = 0;
    proof {
        assert(ds.take(0) =~= Seq::<char>::empty());
    }
    while i < count
        invariant
            0 <= i <= count,
            from + count <= s@.len(),
            n == s@.len(),
            ds == s@.subrange(from as int, from + count),
            forall|j: int| 0 <= j < ds.len() ==> digit_char(#[trigger] ds[j]),
            acc as int == digits_val(ds.take(i as int)),
        decreases count - i,
    {
        let c = s.get_char(from + i);
        assert(c == ds[i as int]);
        let d = (c as u32 as usize) - ('0' as u32 as usize);
        assert(d == digit_val(c) && d <= 9) by {
            assert(digit_char(c));
        }
        proof {
            let t = ds.take(i as int + 1);
            assert(t.drop_last() =~= ds.take(i as int));
            assert(t.last() == ds[i as int]);
            lemma_digits_val_nonneg(ds.take(i as int));
        }
        if acc > (usize::MAX - d) / 10 {
            proof {
                vstd::arithmetic::div_mod::lemma_fundamental_div_mod(
                    usize::MAX as int - d,
                    10,
                );
                assert(digits_val(ds.take(i as int + 1)) > usize::MAX as int);
                lemma_digits_val_prefix(ds, i as int + 1);
            }
            return None;
        }
        proof {
            vstd::arithmetic::div_mod::lemma_fundamental_div_mod(usize::MAX as int - d, 10);
        }
        acc = acc * 10 + d;
        i = i + 1;
    }
    proof {
        assert(ds.take(count as int) =~= ds);
    }
    Some(acc)
}

/// The canonical decimal rendering of `n` is a canonical digit string whose
/// value is `n` again.
pub proof fn lemma_dec_digits_props(n: int)
    requires
        n >= 0,
    ensures
        dec_digits(n).len() >= 1,
        forall|i: int| 0 <= i < dec_digits(n).len() ==> digit_char(#[trigger] dec_digits(n)[i]),
        canonical_digits(dec_digits(n)),
        n >= 1 ==> dec_digits(n)[0] != '0',
        digits_val(dec_digits(n)) == n,
    decreases n,
{
    if n < 10 {
        let ds = seq![digit_chr(n)];
        assert(ds.len() == 1);
        assert(ds.last() == digit_chr(n));
        assert(ds.drop_last() =~= Seq::<char>::empty());
        assert(digits_val(ds) == digits_val(ds.drop_last()) * 10 + digit_val(ds.last()));
        assert(digits_val(Seq::<char>::empty()) == 0);
        assert(digits_val(ds) == digit_val(digit_chr(n)));
    } else {
        lemma_dec_digits_props(n / 10);
        vstd::arithmetic::div_mod::lemma_fundamental_div_mod(n, 10);
        let ds = dec_digits(n / 10).push(digit_chr(n % 10));
        assert(ds.drop_last() =~= dec_digits(n / 10));
        assert(ds.last() == digit_chr(n % 10));
        assert(digits_val(ds) == digits_val(dec_digits(n / 10)) * 10 + digit_val(
            digit_chr(n % 10),
        ));
        assert(forall|i: int| 0 <= i < ds.len() - 1 ==> ds[i] == dec_digits(n / 10)[i]);
    }
}

/// A non-empty digit string without a leading zero has value at least one,
/// and at least ten once a second digit follows.
proof fn lemma_digits_val_lower(ds: Seq<char>)
    requires
        ds.len() > 0,
        forall|i: int| 0 <= i < ds.len() ==> digit_char(#[trigger] ds[i]),
        ds[0] != '0',
    ensures
        digits_val(ds) >= 1,
        ds.len() > 1 ==> digits_val(ds) >= 10,
    decreases ds.len(),
{
    if ds.len() == 1 {
        assert(digits_val(ds) == digits_val(ds.drop_last()) * 10 + digit_val(ds.last()));
        assert(ds.drop_last() =~= Seq::<char>::empty());
        assert(ds.last() == ds[0]);
        assert(digit_val(ds[0]) >= 1);
    } else {
        lemma_digits_val_lower(ds.drop_last());
        assert(digit_val(ds.last()) >= 0);
    }
}

/// Reading a canonical digit string and rendering the value again gives the
/// same digits: rendering is a bijection between canonical digit strings and
/// non-negative integers.
pub proof fn lemma_digits_val_inverse(ds: Seq<char>)
    requires
        canonical_digits(ds),
    ensures
        digits_val(ds) >= 0,
        dec_digits(digits_val(ds)) == ds,
    decreases ds.len(),
{
    let d = digit_val(ds.last());
    if ds.len() == 1 {
        assert(ds.drop_last() =~= Seq::<char>::empty());
        assert(digits_val(ds) == digits_val(ds.drop_last()) * 10 + digit_val(ds.last()));
        assert(digits_val(Seq::<char>::empty()) == 0);
        assert(digits_val(ds) == d);
        assert(dec_digits(d) =~= seq![digit_chr(d)]);
        assert(digit_chr(d) == ds[0]);
        assert(dec_digits(digits_val(ds)) =~= ds);
    } else {
        let prefix = ds.drop_last();
        assert(prefix[0] == ds[0]);
        assert(forall|i: int| 0 <= i < prefix.len() ==> prefix[i] == ds[i]);
        lemma_digits_val_inverse(prefix);
        lemma_digits_val_lower(prefix);
        let v = digits_val(ds);
        let pv = digits_val(prefix);
        assert(v == pv * 10 + d);
        assert(v >= 10);
        vstd::arithmetic::div_mod::lemma_fundamental_div_mod_converse(v, 10, pv, d);
        assert(v / 10 == pv && v % 10 == d);
        assert(dec_digits(v) == dec_digits(pv).push(digit_chr(d)));
        assert(digit_chr(d) == ds.last());
        assert(prefix.push(ds.last()) =~= ds);
    }
}

/// A run of name characters followed by anything that does not start with a
/// name character scans to exactly the run.
proof fn lemma_name_run_concat(a: Seq<char>, b: Seq<char>)
    requires
        forall|i: int| 0 <= i < a.len() ==> name_char(#[trigger] a[i]),
        b.len() == 0 || !name_char(b[0]),
    ensures
        name_run(a + b) == a.len(),
    decreases a.len(),
{
    if a.len() == 0 {
        assert(a + b =~= b);
    } else {
        assert((a + b)[0] == a[0]);
        assert((a + b).skip(1) =~= a.skip(1) + b);
        lemma_name_run_concat(a.skip(1), b);
    }
}

/// A run of digits followed by anything that does not start with a digit
/// scans to exactly the run.
proof fn lemma_digit_run_concat(a: Seq<char>, b: Seq<char>)
    requires
        forall|i: int| 0 <= i < a.len() ==> digit_char(#[trigger] a[i]),
        b.len() == 0 || !digit_char(b[0]),
    ensures
        digit_run(a + b) == a.len(),
    decreases a.len(),
{
    if a.len() == 0 {
        assert(a + b =~= b);
    } else {
        assert((a + b)[0] == a[0]);
        assert((a + b).skip(1) =~= a.skip(1) + b);
        lemma_digit_run_concat(a.skip(1), b);
    }
}

/// The rendered tail of a path is empty or opens with a delimiter, never
/// with a name character or a digit.
proof fn lemma_render_tail_head(segs: Seq<SegVm>)
    ensures
        segs.len() == 0 ==> render_tail(segs).len() == 0,
        segs.len() > 0 ==> render_tail(segs).len() > 0 && !name_char(render_tail(segs)[0])
            && !digit_char(render_tail(segs)[0]),
{
    if segs.len() > 0 {
        match segs[0] {
            SegVm::Field(n) => {
                assert(render_tail(segs)[0] == (seq!['.'] + n)[0]);
                assert((seq!['.'] + n)[0] == '.');
            },
            SegVm::Index(i) => {
                assert(render_tail(segs)[0] == (seq!['['] + dec_digits(i) + seq![']'])[0]);
                assert((seq!['['] + dec_digits(i) + seq![']'])[0] == '[');
            },
        }
    }
}

/// Parser soundness, tail form: whatever the tail parser accepts is a
/// sequence of well-formed steps whose rendering is the input itself.
proof fn lemma_parse_rest_sound(s: Seq<char>)
    requires
        parse_rest(s) is Some,
    ensures
        ({
            let g = parse_rest(s).unwrap();
            &&& forall|i: int| 0 <= i < g.len() ==> wf_seg(#[trigger] g[i])
            &&& render_tail(g) == s
        }),
    decreases s.len(),
{
    let g = parse_rest(s).unwrap();
    if s.len() == 0 {
        assert(render_tail(g) =~= s);
    } else if s[0] == '.' {
        let k = name_run(s.skip(1));
        lemma_name_run_bounds(s.skip(1));
        lemma_parse_rest_sound(s.skip(1 + k));
        let name = s.subrange(1, 1 + k);
        let rest = parse_rest(s.skip(1 + k)).unwrap();
        assert(forall|i: int| 0 <= i < k ==> name[i] == s.skip(1)[i]);
        assert(wf_name(name));
        assert(g == seq![SegVm::Field(name)] + rest);
        assert(g[0] == SegVm::Field(name));
        assert(g.skip(1) =~= rest);
        assert(render_tail(g) == seg_text(g[0]) + render_tail(rest));
        assert(seg_text(g[0]) + s.skip(1 + k) =~= s);
    } else {
        let d = digit_run(s.skip(1));
        lemma_digit_run_bounds(s.skip(1));
        let digits = s.subrange(1, 1 + d);
        assert(forall|i: int| 0 <= i < d ==> digits[i] == s.skip(1)[i]);
        let v = digits_val(digits);
        lemma_digits_val_inverse(digits);
        lemma_parse_rest_sound(s.skip(2 + d));
        let rest = parse_rest(s.skip(2 + d)).unwrap();
        assert(g == seq![SegVm::Index(v)] + rest);
        assert(g[0] == SegVm::Index(v));
        assert(g.skip(1) =~= rest);
        assert(render_tail(g) == seg_text(g[0]) + render_tail(rest));
        assert(seg_text(g[0]) == seq!['['] + dec_digits(v) + seq![']']);
        assert(dec_digits(v) == digits);
        assert(seq!['['] + digits + seq![']'] + s.skip(2 + d) =~= s);
    }
}

/// Parser soundness: whatever the parser accepts is a well-formed path
/// whose rendering is the input itself — the parser accepts nothing else.
pub proof fn lemma_parse_sound(s: Seq<char>)
    requires
        parse_path(s) is Some,
    ensures
        wf_segs(parse_path(s).unwrap()),
        render_segs(parse_path(s).unwrap()) == s,
{
    let k = name_run(s);
    lemma_name_run_bounds(s);
    let name = s.subrange(0, k);
    assert(forall|i: int| 0 <= i < k ==> name[i] == s[i]);
    assert(wf_name(name));
    lemma_parse_rest_sound(s.skip(k));
    let rest = parse_rest(s.skip(k)).unwrap();
    let g = parse_path(s).unwrap();
    assert(g == seq![SegVm::Field(name)] + rest);
    assert(g[0] == SegVm::Field(name));
    assert(g.skip(1) =~= rest);
    assert(render_segs(g) == name + render_tail(rest));
    assert(name + s.skip(k) =~= s);
}

/// Parser completeness, tail form: the tail parser accepts the rendering of
/// any sequence of well-formed steps and recovers exactly those steps.
proof fn lemma_parse_rest_complete(segs: Seq<SegVm>)
    requires
        forall|i: int| 0 <= i < segs.len() ==> wf_seg(#[trigger] segs[i]),
    ensures
        parse_rest(render_tail(segs)) == Some(segs),
    decreases segs.len(),
{
    if segs.len() == 0 {
        assert(render_tail(segs) =~= Seq::<char>::empty());
        assert(parse_rest(render_tail(segs)) == Some(Seq::<SegVm>::empty()));
        assert(Seq::<SegVm>::empty() =~= segs);
    } else {
        let tail = render_tail(segs.skip(1));
        assert(forall|i: int| 0 <= i < segs.skip(1).len() ==> wf_seg(#[trigger] segs.skip(1)[i]));
        lemma_parse_rest_complete(segs.skip(1));
        lemma_render_tail_head(segs.skip(1));
        let s = render_tail(segs);
        match segs[0] {
            SegVm::Field(n) => {
                assert(s == seq!['.'] + n + tail);
                assert(s[0] == '.');
                assert(s.skip(1) =~= n + tail);
                lemma_name_run_concat(n, tail);
                let k = name_run(s.skip(1));
                assert(k == n.len());
                assert(s.subrange(1, 1 + k) =~= n);
                assert(s.skip(1 + k) =~= tail);
                assert(seq![SegVm::Field(n)] + segs.skip(1) =~= segs);
            },
            SegVm::Index(v) => {
                let dd = dec_digits(v);
                lemma_dec_digits_props(v);
                assert(s == seq!['['] + dd + seq![']'] + tail);
                assert(s[0] == '[');
                assert(s.skip(1) =~= dd + (seq![']'] + tail));
                assert(!digit_char(']'));
                assert((seq![']'] + tail)[0] == ']');
                lemma_digit_run_concat(dd, seq![']'] + tail);
                let d = digit_run(s.skip(1));
                assert(d == dd.len());
                assert(d >= 1);
                assert(s.len() == 2 + d + tail.len());
                assert(s[1 + d] == (seq![']'] + tail)[0]);
                assert(s.subrange(1, 1 + d) =~= dd);
                assert(s[1] == dd[0]);
                assert(d > 1 ==> s[1] != '0');
                assert(digits_val(s.subrange(1, 1 + d)) == v);
                assert(s.skip(2 + d) =~= tail);
                assert(seq![SegVm::Index(v)] + segs.skip(1) =~= segs);
            },
        }
    }
}

/// Parser completeness: the parser accepts the rendering of any well-formed
/// path and recovers exactly its steps. With soundness this pins the parser:
/// it accepts precisely the renderings of well-formed paths.
pub proof fn lemma_parse_complete(segs: Seq<SegVm>)
    requires
        wf_segs(segs),
    ensures
        parse_path(render_segs(segs)) == Some(segs),
{
    let s = render_segs(segs);
    let tail = render_tail(segs.skip(1));
    lemma_parse_rest_complete(segs.skip(1));
    lemma_render_tail_head(segs.skip(1));
    match segs[0] {
        SegVm::Field(n) => {
            assert(s == n + tail);
            lemma_name_run_concat(n, tail);
            let k = name_run(s);
            assert(k == n.len());
            assert(k >= 1);
            assert(s.subrange(0, k) =~= n);
            assert(s.skip(k) =~= tail);
            assert(seq![SegVm::Field(n)] + segs.skip(1) =~= segs);
        },
        SegVm::Index(_) => {
            assert(false);
        },
    }
}

/// One decimal digit as text.
fn digit_str(d: usize) -> (s: &'static str)
    requires
        d < 10,
    ensures
        s@ == seq![digit_chr(d as int)],
{
    proof {
        reveal_strlit("0");
        reveal_strlit("1");
        reveal_strlit("2");
        reveal_strlit("3");
        reveal_strlit("4");
        reveal_strlit("5");
        reveal_strlit("6");
        reveal_strlit("7");
        reveal_strlit("8");
        reveal_strlit("9");
    }
    let s: &'static str = match d {
        0 => "0",
        1 => "1",
        2 => "2",
        3 => "3",
        4 => "4",
        5 => "5",
        6 => "6",
        7 => "7",
        8 => "8",
        _ => "9",
    };
    proof {
        assert(s@ =~= seq![digit_chr(d as int)]);
    }
    s
}

/// The canonical decimal text of a machine word.
pub fn dec_string(n: usize) -> (r: String)
    ensures
        r@ == dec_digits(n as int),
    decreases n,
{
    if n < 10 {
        let r = String::from_str(digit_str(n));
        proof {
            assert(r@ =~= dec_digits(n as int));
        }
        r
    } else {
        let mut r = dec_string(n / 10);
        r.append(digit_str(n % 10));
        proof {
            assert(r@ =~= dec_digits((n / 10) as int).push(digit_chr((n % 10) as int)));
            assert(dec_digits(n as int) == dec_digits(n as int / 10).push(
                digit_chr(n as int % 10),
            ));
            assert(n as int / 10 == (n / 10) as int);
            assert(n as int % 10 == (n % 10) as int);
        }
        r
    }
}

impl PropertyPath {
    /// Parses a path string. Returns `None` exactly where the string is not
    /// the text of any well-formed path: an empty or missing name, a stray
    /// delimiter, an empty or zero-padded index, or an index too large for a
    /// machine word.
    pub fn parse(s: &str) -> (r: Option<PropertyPath>)
        ensures
            match r {
                Some(p) => parse_path(s@) == Some(p@),
                None => parse_path(s@) is None,
            },
    {
        let n = s.unicode_len();
        let mut segs: Vec<PathSeg> = Vec::new();
        let k = scan_name(s, 0);
        proof {
            assert(s@.skip(0) =~= s@);
        }
        if k == 0 {
            return None;
        }
        let first = s.substring_char(0, k).to_owned();
        assert(first@ == s@.subrange(0, k as int));
        segs.push(PathSeg::Field(first));
        let mut pos = k;
        proof {
            assert(segs_vm(segs@) =~= seq![SegVm::Field(s@.subrange(0, k as int))]);
        }
        while pos < n
            invariant
                0 < pos <= n,
                n as int == s@.len(),
                match parse_rest(s@.skip(pos as int)) {
                    Some(rest) => parse_path(s@) == Some(segs_vm(segs@) + rest),
                    None => parse_path(s@) is None,
                },
            decreases n - pos,
        {
            let ghost tail = s@.skip(pos as int);
            let c = s.get_char(pos);
            assert(c == tail[0]);
            if c == '.' {
                let k2 = scan_name(s, pos + 1);
                proof {
                    lemma_skip_skip(s@, pos as int, 1);
                }
                if k2 == 0 {
                    return None;
                }
                let name = s.substring_char(pos + 1, pos + 1 + k2).to_owned();
                proof {
                    assert(tail.subrange(1, 1 + k2 as int) =~= s@.subrange(
                        pos + 1,
                        pos + 1 + k2,
                    ));
                    lemma_skip_skip(s@, pos as int, 1 + k2 as int);
                }
                let ghost before = segs_vm(segs@);
                segs.push(PathSeg::Field(name));
                proof {
                    let seg = SegVm::Field(tail.subrange(1, 1 + k2 as int));
                    assert(segs_vm(segs@) =~= before + seq![seg]);
                    match parse_rest(s@.skip(pos + 1 + k2)) {
                        Some(r) => {
                            assert(parse_rest(tail) == Some(seq![seg] + r));
                            assert(before + (seq![seg] + r) =~= (before + seq![seg]) + r);
                        },
                        None => {},
                    }
                }
                pos = pos + 1 + k2;
            } else if c == '[' {
                let d = scan_digits(s, pos + 1);
                proof {
                    lemma_skip_skip(s@, pos as int, 1);
                }
                if d == 0 {
                    return None;
                }
                if pos + 1 + d >= n {
                    return None;
                }
                let close = s.get_char(pos + 1 + d);
                assert(close == tail[1 + d as int]);
                if close != ']' {
                    return None;
                }
                if d > 1 && s.get_char(pos + 1) == '0' {
                    assert(tail[1] == s@[pos + 1]);
                    return None;
                }
                assert(tail[1] == s@[pos + 1]);
                proof {
                    assert(tail.subrange(1, 1 + d as int) =~= s@.subrange(pos + 1, pos + 1 + d));
                    assert(forall|i: int|
                        pos + 1 <= i < pos + 1 + d ==> digit_char(#[trigger] s@[i])) by {
                        lemma_digit_run_bounds(s@.skip(pos + 1));
                        assert(forall|i: int|
                            pos + 1 <= i < pos + 1 + d ==> s@[i] == s@.skip(pos + 1)[i - pos
                                - 1]);
                    }
                }
                let v = match digits_value(s, pos + 1, d) {
                    Some(v) => v,
                    None => {
                        return None;
                    },
                };
                proof {
                    lemma_skip_skip(s@, pos as int, 2 + d as int);
                }
                let ghost before = segs_vm(segs@);
                segs.push(PathSeg::Index(v));
                proof {
                    let seg = SegVm::Index(digits_val(tail.subrange(1, 1 + d as int)));
                    assert(segs_vm(segs@) =~= before + seq![seg]);
                    match parse_rest(s@.skip(pos + 2 + d)) {
                        Some(r) => {
                            assert(parse_rest(tail) == Some(seq![seg] + r));
                            assert(before + (seq![seg] + r) =~= (before + seq![seg]) + r);
                        },
                        None => {},
                    }
                }
                pos = pos + 2 + d;
            } else {
                return None;
            }
        }
        proof {
            assert(s@.skip(n as int) =~= Seq::<char>::empty());
            assert(parse_rest(s@.skip(n as int)) == Some(Seq::<SegVm>::empty()));
            assert(segs_vm(segs@) + Seq::<SegVm>::empty() =~= segs_vm(segs@));
        }
        Some(PropertyPath { segs })
    }
}

} // verus!
