//! File and folder names that are valid on every common operating system.
use vstd::prelude::*;
use crate::text::{
    ascii_lower, chars_of, eq_str, is_ascii_char, is_control, is_ctrl, is_whitespace, is_ws,
    slice_chars, string_from_chars, to_ascii_lowercase, trim, trim_chars, trim_dots,
    trim_dots_chars,
};

verus! {

/// Characters that no common file system accepts in a file name.
pub open spec fn is_forbidden(c: char) -> bool {
    c == '<' || c == '>' || c == ':' || c == '"' || c == '/' || c == '\\' || c == '|' || c == '?'
        || c == '*'
}

/// Characters that `create_valid_filename` replaces with `'_'`.
pub open spec fn is_replaced(c: char, remove_whitespace: bool, ascii_only: bool) -> bool {
    is_forbidden(c) || is_ctrl(c) || (remove_whitespace && is_ws(c)) || (ascii_only
        && !is_ascii_char(c))
}

pub open spec fn replace_invalid(s: Seq<char>, rw: bool, ao: bool) -> Seq<char> {
    s.map_values(|c: char| if is_replaced(c, rw, ao) { '_' } else { c })
}

/// Names Windows reserves for devices, compared without regard to ASCII case.
pub open spec fn is_reserved_name(s: Seq<char>) -> bool {
    let l = ascii_lower(s);
    ||| l == "con"@ || l == "prn"@ || l == "aux"@ || l == "nul"@
    ||| l == "com1"@ || l == "com2"@ || l == "com3"@ || l == "com4"@ || l == "com5"@
    ||| l == "com6"@ || l == "com7"@ || l == "com8"@ || l == "com9"@
    ||| l == "lpt1"@ || l == "lpt2"@ || l == "lpt3"@ || l == "lpt4"@ || l == "lpt5"@
    ||| l == "lpt6"@ || l == "lpt7"@ || l == "lpt8"@ || l == "lpt9"@
}

/// The file name `create_valid_filename` makes of `input`.
pub open spec fn valid_filename(input: Seq<char>, rw: bool, ao: bool) -> Seq<char> {
    let s1 = trim_dots(trim(replace_invalid(input, rw, ao)));
    let s2 = if is_reserved_name(s1) {
        seq!['_'] + s1
    } else {
        s1
    };
    let s3 = if s2.len() == 0 {
        "unnamed"@
    } else {
        s2
    };
    if s3.len() > 255 {
        s3.subrange(0, 255)
    } else {
        s3
    }
}

pub open spec fn opt_flag(o: Option<bool>) -> bool {
    match o {
        Some(b) => b,
        None => false,
    }
}

fn is_reserved(s: &Vec<char>) -> (r: bool)
    ensures
        r == is_reserved_name(s@),
{
    let l = to_ascii_lowercase(s);
    eq_str(&l, "con") || eq_str(&l, "prn") || eq_str(&l, "aux") || eq_str(&l, "nul") || eq_str(
        &l,
        "com1",
    ) || eq_str(&l, "com2") || eq_str(&l, "com3") || eq_str(&l, "com4") || eq_str(&l, "com5")
        || eq_str(&l, "com6") || eq_str(&l, "com7") || eq_str(&l, "com8") || eq_str(&l, "com9")
        || eq_str(&l, "lpt1") || eq_str(&l, "lpt2") || eq_str(&l, "lpt3") || eq_str(&l, "lpt4")
        || eq_str(&l, "lpt5") || eq_str(&l, "lpt6") || eq_str(&l, "lpt7") || eq_str(&l, "lpt8")
        || eq_str(&l, "lpt9")
}

/// Makes a file or folder name out of `input` that all common systems
/// accept: characters no system allows (and, on request, white space or
/// non-ASCII characters) become `'_'`, surrounding white space and dots go,
/// Windows device names get a leading `'_'`, an empty result becomes
/// `"unnamed"`, and the result keeps at most 255 characters.
pub fn create_valid_filename(input: &str, remove_whitespace: Option<bool>, ascii_only: Option<bool>) -> (r: String)
    ensures
        r@ == valid_filename(input@, opt_flag(remove_whitespace), opt_flag(ascii_only)),
{
    let rw = match remove_whitespace {
        Some(b) => b,
        None => false,
    };
    let ao = match ascii_only {
        Some(b) => b,
        None => false,
    };
    let src = chars_of(input);
    let mut replaced: Vec<char> = Vec::new();
    let mut i: usize = 0;
    while i < src.len()
        invariant
            i <= src.len(),
            replaced@ == replace_invalid(src@.subrange(0, i as int), rw, ao),
        decreases src.len() - i,
    {
        let c = src[i];
        let bad = c == '<' || c == '>' || c == ':' || c == '"' || c == '/' || c == '\\' || c == '|'
            || c == '?' || c == '*' || is_control(c) || (rw && is_whitespace(c)) || (ao && !((c as u32)
            < 0x80));
        if bad {
            replaced.push('_');
        } else {
            replaced.push(c);
        }
        i = i + 1;
        assert(replace_invalid(src@.subrange(0, i as int), rw, ao) =~= replace_invalid(
            src@.subrange(0, i - 1),
            rw,
            ao,
        ).push(if is_replaced(src@[i - 1], rw, ao) { '_' } else { src@[i - 1] }));
    }
    assert(src@.subrange(0, src.len() as int) =~= src@);
    let s1 = trim_dots_chars(&trim_chars(&replaced));
    let s2 = if is_reserved(&s1) {
        let mut v: Vec<char> = Vec::new();
        v.push('_');
        crate::text::push_all(&mut v, &s1);
        v
    } else {
        s1
    };
    let s3 = if s2.len() == 0 {
        chars_of("unnamed")
    } else {
        s2
    };
    let s4 = if s3.len() > 255 {
        slice_chars(&s3, 0, 255)
    } else {
        s3
    };
    string_from_chars(&s4)
}

proof fn lemma_reserved_shape(s: Seq<char>)
    requires
        is_reserved_name(s),
    ensures
        3 <= s.len() <= 4,
        ascii_lower(s)[0] != '_',
{
    reveal_strlit("con");
    reveal_strlit("prn");
    reveal_strlit("aux");
    reveal_strlit("nul");
    reveal_strlit("com1");
    reveal_strlit("com2");
    reveal_strlit("com3");
    reveal_strlit("com4");
    reveal_strlit("com5");
    reveal_strlit("com6");
    reveal_strlit("com7");
    reveal_strlit("com8");
    reveal_strlit("com9");
    reveal_strlit("lpt1");
    reveal_strlit("lpt2");
    reveal_strlit("lpt3");
    reveal_strlit("lpt4");
    reveal_strlit("lpt5");
    reveal_strlit("lpt6");
    reveal_strlit("lpt7");
    reveal_strlit("lpt8");
    reveal_strlit("lpt9");
    let l = ascii_lower(s);
    assert(l.len() == s.len());
    assert("con"@.len() == 3);
    assert("con"@[0] == 'c');
}

/// What every name `create_valid_filename` makes has in common: it is not
/// empty, has at most 255 characters, holds no character that a common file
/// system refuses and no control character, holds no white space when white
/// space is to be removed, is plain ASCII when that is asked for, and is not
/// a reserved Windows device name.
pub proof fn lemma_valid_filename_is_valid(input: Seq<char>, rw: bool, ao: bool)
    ensures
        ({
            let r = valid_filename(input, rw, ao);
            &&& 0 < r.len() <= 255
            &&& forall|i: int| 0 <= i < r.len() ==> !is_forbidden(#[trigger] r[i]) && !is_ctrl(r[i])
            &&& rw ==> forall|i: int| 0 <= i < r.len() ==> !is_ws(#[trigger] r[i])
            &&& ao ==> forall|i: int| 0 <= i < r.len() ==> is_ascii_char(#[trigger] r[i])
            &&& !is_reserved_name(r)
        }),
{
    let q = |c: char|
        !is_forbidden(c) && !is_ctrl(c) && (rw ==> !is_ws(c)) && (ao ==> is_ascii_char(c));
    let s0 = replace_invalid(input, rw, ao);
    assert forall|i: int| 0 <= i < s0.len() implies #[trigger] q(s0[i]) by {}
    let pw = |c: char| is_ws(c);
    let pd = |c: char| c == '.';
    crate::text::lemma_drop_lead_keeps(s0, pw, q);
    let a = crate::text::drop_lead(s0, pw);
    crate::text::lemma_drop_trail_keeps(a, pw, q);
    let t = trim(s0);
    assert(t == crate::text::drop_trail(a, pw));
    crate::text::lemma_drop_lead_keeps(t, pd, q);
    let b = crate::text::drop_lead(t, pd);
    crate::text::lemma_drop_trail_keeps(b, pd, q);
    let s1 = trim_dots(t);
    assert(s1 == crate::text::drop_trail(b, pd));
    assert forall|i: int| 0 <= i < s1.len() implies #[trigger] q(s1[i]) by {}
    let s2 = if is_reserved_name(s1) {
        seq!['_'] + s1
    } else {
        s1
    };
    assert forall|i: int| 0 <= i < s2.len() implies #[trigger] q(s2[i]) by {
        if is_reserved_name(s1) && i > 0 {
            assert(s2[i] == s1[i - 1]);
        }
    }
    if is_reserved_name(s1) {
        lemma_reserved_shape(s1);
        assert(ascii_lower(s2)[0] == '_');
        if is_reserved_name(s2) {
            lemma_reserved_shape(s2);
        }
    }
    reveal_strlit("unnamed");
    let s3 = if s2.len() == 0 {
        "unnamed"@
    } else {
        s2
    };
    assert forall|i: int| 0 <= i < s3.len() implies #[trigger] q(s3[i]) by {}
    if is_reserved_name(s3) {
        lemma_reserved_shape(s3);
    }
    let r = valid_filename(input, rw, ao);
    assert forall|i: int| 0 <= i < r.len() implies #[trigger] q(r[i]) by {
        if s3.len() > 255 {
            assert(r[i] == s3[i]);
        }
    }
    if is_reserved_name(r) {
        lemma_reserved_shape(r);
    }
    assert(s3.len() > 0);
    assert(0 < r.len() <= 255);
    assert forall|i: int| 0 <= i < r.len() implies !is_forbidden(#[trigger] r[i]) && !is_ctrl(r[i])
        && (rw ==> !is_ws(r[i])) && (ao ==> is_ascii_char(r[i])) by {
        assert(q(r[i]));
    }
}

/// Cleaning a name again changes nothing, for a name of at most 255
/// characters without a `'.'` (a dot at either end of the cleaned name, or a
/// cut at 255 characters, is only removed by the first pass).
pub proof fn lemma_valid_filename_idempotent(input: Seq<char>, rw: bool, ao: bool)
    requires
        input.len() <= 255,
        !input.contains('.'),
    ensures
        valid_filename(valid_filename(input, rw, ao), rw, ao) == valid_filename(input, rw, ao),
{
    let q = |c: char| c != '.' && !is_replaced(c, rw, ao);
    let pw = |c: char| is_ws(c);
    let pd = |c: char| c == '.';
    let s0 = replace_invalid(input, rw, ao);
    assert forall|i: int| 0 <= i < s0.len() implies #[trigger] q(s0[i]) by {
        assert(input[i] != '.') by {
            if input[i] == '.' {
                assert(input.contains('.'));
            }
        }
    }
    crate::text::lemma_drop_lead_keeps(s0, pw, q);
    let a = crate::text::drop_lead(s0, pw);
    crate::text::lemma_drop_trail_keeps(a, pw, q);
    let u = trim(s0);
    assert(u == crate::text::drop_trail(a, pw));
    assert(u.len() <= 255);
    assert forall|i: int| 0 <= i < u.len() implies #[trigger] q(u[i]) by {}
    // a name without dots is its own dot-trim
    if u.len() > 0 {
        assert(q(u[0]) && q(u[u.len() - 1]));
    }
    crate::text::lemma_strip(u, pd, 0, u.len() as int);
    assert(u.subrange(0, u.len() as int) =~= u);
    assert(trim_dots(u) == u);
    crate::text::lemma_trim_ends(s0);
    reveal_strlit("unnamed");
    let r = valid_filename(input, rw, ao);
    if is_reserved_name(u) {
        lemma_reserved_shape(u);
        assert(r == seq!['_'] + u);
    } else if u.len() == 0 {
        assert(r == "unnamed"@);
    } else {
        assert(r == u);
    }
    assert(0 < r.len() <= 255);
    assert forall|i: int| 0 <= i < r.len() implies #[trigger] q(r[i]) by {
        if is_reserved_name(u) && i > 0 {
            assert(r[i] == u[i - 1]);
        }
    }
    assert(!is_ws(r[0]) && !is_ws(r.last()));
    assert forall|i: int| 0 <= i < r.len() implies replace_invalid(r, rw, ao)[i] == r[i] by {
        assert(q(r[i]));
    }
    assert(replace_invalid(r, rw, ao) =~= r);
    crate::text::lemma_trim_of_trimmed(r);
    assert(q(r[0]) && q(r[r.len() - 1]));
    crate::text::lemma_strip(r, pd, 0, r.len() as int);
    assert(r.subrange(0, r.len() as int) =~= r);
    assert(trim_dots(r) == r);
    if is_reserved_name(r) {
        lemma_reserved_shape(r);
        if is_reserved_name(u) {
            assert(ascii_lower(r)[0] == '_');
        } else if u.len() == 0 {
            assert(false);
        }
    }
}

} // verus!
