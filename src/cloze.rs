//! Numbering of cloze deletions: `{{text}}` becomes `{{c1::text}}`,
//! `{{c2::...}}` and so on, in order of appearance.
use vstd::prelude::*;
use crate::text::{chars_of, decimal, push_decimal, string_range};

verus! {

/// The first `}}` at or after `j`, provided no line break comes before it.
pub open spec fn first_close(s: Seq<char>, j: int) -> Option<int>
    decreases s.len() - j,
{
    if j < 0 || j + 1 >= s.len() {
        None
    } else if s[j] == '}' && s[j + 1] == '}' {
        Some(j)
    } else if s[j] == '\n' {
        None
    } else {
        first_close(s, j + 1)
    }
}

/// Where the `}}` of a cloze that opens with `{{` at `p` stands: the text
/// between is the shortest non-empty run without a line break.
pub open spec fn cloze_at(s: Seq<char>, p: int) -> Option<int> {
    if 0 <= p && p + 2 < s.len() && s[p] == '{' && s[p + 1] == '{' && s[p + 2] != '\n' {
        first_close(s, p + 3)
    } else {
        None
    }
}

/// The text of cloze number `n`: `{{c`, `n`, `::`, the text, `}}`.
pub open spec fn numbered(n: nat, text: Seq<char>) -> Seq<char> {
    seq!['{', '{', 'c'] + decimal(n) + seq![':', ':'] + text + seq!['}', '}']
}

/// The text from `pos` on with its clozes numbered from `count + 1`, and the
/// last number used.
pub open spec fn number_from(s: Seq<char>, pos: int, count: nat) -> (Seq<char>, nat)
    decreases s.len() - pos,
{
    if pos < 0 || pos >= s.len() {
        (seq![], count)
    } else {
        let c = cloze_at(s, pos);
        if c is Some && pos < c->0 + 2 && c->0 + 2 <= s.len() {
            let q = c->0;
            let rest = number_from(s, q + 2, count + 1);
            (numbered(count + 1, s.subrange(pos + 2, q)) + rest.0, rest.1)
        } else {
            let rest = number_from(s, pos + 1, count);
            (seq![s[pos]] + rest.0, rest.1)
        }
    }
}

/// `s` with its clozes numbered from 1.
pub open spec fn numbered_clozes(s: Seq<char>) -> Seq<char> {
    number_from(s, 0, 0).0
}

/// How many clozes `s` holds.
pub open spec fn cloze_count(s: Seq<char>) -> nat {
    number_from(s, 0, 0).1
}

/// Where the cloze that opens at `p` closes, if one does.
fn find_cloze(s: &Vec<char>, p: usize) -> (r: Option<usize>)
    requires
        p < s@.len(),
    ensures
        r matches Some(q) ==> cloze_at(s@, p as int) == Some(q as int) && p + 3 <= q && q + 2
            <= s@.len(),
        r is None ==> cloze_at(s@, p as int) is None,
{
    if !(s.len() > 2 && p < s.len() - 2 && s[p] == '{' && s[p + 1] == '{' && s[p + 2] != '\n') {
        return None;
    }
    let mut j: usize = p + 3;
    while j < s.len() - 1
        invariant
            p + 3 <= j,
            p + 2 < s@.len(),
            cloze_at(s@, p as int) == first_close(s@, j as int),
        decreases s@.len() - j,
    {
        if s[j] == '}' && s[j + 1] == '}' {
            return Some(j);
        }
        if s[j] == '\n' {
            return None;
        }
        j = j + 1;
    }
    None
}

/// The text with each `{{text}}` numbered as `{{cN::text}}`, counting from 1
/// in order of appearance, or `None` where it holds no cloze.
pub fn process_clozes(cloze_text: &str) -> (r: Option<String>)
    ensures
        r is None <==> cloze_count(cloze_text@) == 0,
        r matches Some(t) ==> t@ == numbered_clozes(cloze_text@),
{
    let s = chars_of(cloze_text);
    let mut out: Vec<char> = Vec::new();
    let mut pos: usize = 0;
    let mut count: usize = 0;
    while pos < s.len()
        invariant
            pos <= s@.len(),
            count <= pos,
            out@ + number_from(s@, pos as int, count as nat).0 == numbered_clozes(s@),
            number_from(s@, pos as int, count as nat).1 == cloze_count(s@),
        decreases s@.len() - pos,
    {
        match find_cloze(&s, pos) {
            Some(q) => {
                count = count + 1;
                let ghost before = out@;
                out.push('{');
                out.push('{');
                out.push('c');
                push_decimal(count as u128, &mut out);
                out.push(':');
                out.push(':');
                let mut k: usize = pos + 2;
                while k < q
                    invariant
                        pos + 2 <= k <= q,
                        q + 2 <= s@.len(),
                        out@ == before + seq!['{', '{', 'c'] + decimal(count as nat) + seq![
                            ':',
                            ':',
                        ] + s@.subrange(pos + 2, k as int),
                    decreases q - k,
                {
                    out.push(s[k]);
                    k = k + 1;
                    assert(out@ =~= before + seq!['{', '{', 'c'] + decimal(count as nat) + seq![
                        ':',
                        ':',
                    ] + s@.subrange(pos + 2, k as int));
                }
                out.push('}');
                out.push('}');
                proof {
                    assert(out@ =~= before + numbered(count as nat, s@.subrange(
                        pos + 2,
                        q as int,
                    )));
                }
                pos = q + 2;
            },
            None => {
                proof {
                    assert(out@.push(s@[pos as int]) + number_from(s@, pos + 1, count as nat).0
                        =~= out@ + number_from(s@, pos as int, count as nat).0);
                }
                out.push(s[pos]);
                pos = pos + 1;
            },
        }
    }
    proof {
        assert(out@ + number_from(s@, pos as int, count as nat).0 =~= out@);
    }
    if count > 0 {
        Some(string_range(&out, 0, out.len()))
    } else {
        None
    }
}

} // verus!
