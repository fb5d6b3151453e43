use vstd::prelude::*;

use crate::chars::{
    char_is_alphanumeric, char_is_white_space, decimal, find_char_from, first_index,
    first_index_of, ident_tail_start, is_ident_char, is_white_space, join, lemma_first_index,
    lemma_ident_tail_start, lemma_join_push, lemma_trim_end_take, push_all, push_decimal, push_str,
    string_from_chars, sub_vec, trim, trim_end, trim_vec,
};
use crate::text::bytes_of;
use crate::utf::{char_index_at_byte, char_index_of_byte, chars_of};

verus! {

/// The pieces of `s` between commas (one piece when there is no comma).
pub open spec fn split_commas(s: Seq<char>) -> Seq<Seq<char>>
    decreases s.len(),
{
    match first_index(s, ',') {
        Some(k) => {
            if 0 <= k < s.len() {
                seq![s.take(k)] + split_commas(s.skip(k + 1))
            } else {
                seq![s]
            }
        },
        None => seq![s],
    }
}

/// The name part of a `name: type` parameter declaration.
pub open spec fn param_name(piece: Seq<char>) -> Seq<char> {
    let t = trim(piece);
    match first_index(t, ':') {
        Some(k) => trim(t.take(k)),
        None => t,
    }
}

/// Snippet placeholders `${i:name}` for the non-empty, non-`self`
/// parameters, numbered from `idx`.
pub open spec fn snippet_parts(pieces: Seq<Seq<char>>, idx: nat) -> Seq<Seq<char>>
    decreases pieces.len(),
{
    if pieces.len() == 0 {
        seq![]
    } else if trim(pieces[0]).len() == 0 || param_name(pieces[0]) == "self"@ {
        snippet_parts(pieces.drop_first(), idx)
    } else {
        seq!["${"@ + decimal(idx) + ":"@ + param_name(pieces[0]) + "}"@] + snippet_parts(
            pieces.drop_first(),
            idx + 1,
        )
    }
}

/// The text inserted when completing a call to `name`: the name and, for
/// each parameter of `signature` but `self`, a numbered placeholder; with
/// no parameter list in the signature, just `name()`.
pub open spec fn spec_function_snippet(name: Seq<char>, signature: Seq<char>) -> Seq<char> {
    match (first_index(signature, '('), first_index(signature, ')')) {
        (Some(o), Some(c)) => name + "("@ + join(
            snippet_parts(split_commas(signature.subrange(o + 1, c)), 1),
            ", "@,
        ) + ")"@,
        _ => name + "()"@,
    }
}

pub proof fn lemma_split_step(s: Seq<char>, k: int)
    requires
        0 <= k < s.len(),
        s[k] == ',',
        forall|j: int| 0 <= j < k ==> s[j] != ',',
    ensures
        split_commas(s) == seq![s.take(k)] + split_commas(s.skip(k + 1)),
{
    lemma_first_index(s, ',');
}

pub proof fn lemma_split_last(s: Seq<char>)
    requires
        forall|j: int| 0 <= j < s.len() ==> s[j] != ',',
    ensures
        split_commas(s) == seq![s],
{
    lemma_first_index(s, ',');
}

proof fn lemma_snippet_parts_append(pieces: Seq<Seq<char>>, more: Seq<Seq<char>>, idx: nat)
    ensures
        snippet_parts(pieces + more, idx) == snippet_parts(pieces, idx) + snippet_parts(
            more,
            idx + (snippet_parts(pieces, idx).len() as nat),
        ),
    decreases pieces.len(),
{
    if pieces.len() == 0 {
        assert(pieces + more =~= more);
    } else {
        assert((pieces + more).drop_first() =~= pieces.drop_first() + more);
        assert((pieces + more)[0] == pieces[0]);
        if trim(pieces[0]).len() == 0 || param_name(pieces[0]) == "self"@ {
            lemma_snippet_parts_append(pieces.drop_first(), more, idx);
        } else {
            lemma_snippet_parts_append(pieces.drop_first(), more, idx + 1);
        }
    }
}

/// The name part of one parameter declaration.
fn param_name_of(piece: &Vec<char>) -> (r: Vec<char>)
    ensures
        r@ == param_name(piece@),
{
    let t = trim_vec(piece);
    match first_index_of(&t, ':') {
        Some(k) => {
            proof {
                lemma_first_index(t@, ':');
            }
            let head = sub_vec(&t, 0, k);
            proof {
                assert(head@ =~= t@.take(k as int));
            }
            trim_vec(&head)
        },
        None => t,
    }
}

fn is_self(v: &Vec<char>) -> (r: bool)
    ensures
        r == (v@ == "self"@),
{
    proof {
        reveal_strlit("self");
    }
    let r = v.len() == 4 && v[0] == 's' && v[1] == 'e' && v[2] == 'l' && v[3] == 'f';
    proof {
        if r {
            assert(v@ =~= "self"@);
        }
    }
    r
}

/// The snippet inserted when completing a call to `name` with the given
/// signature (see `spec_function_snippet`).
pub fn function_snippet(name: &str, signature: &str) -> (r: String)
    requires
        match (first_index(signature@, '('), first_index(signature@, ')')) {
            (Some(o), Some(c)) => o < c,
            _ => true,
        },
    ensures
        r@ == spec_function_snippet(name@, signature@),
{
    let sig = chars_of(signature);
    let mut out: Vec<char> = Vec::new();
    push_str(&mut out, name);
    let open = first_index_of(&sig, '(');
    let close = first_index_of(&sig, ')');
    match (open, close) {
        (Some(o), Some(c)) => {
            proof {
                lemma_first_index(sig@, '(');
                lemma_first_index(sig@, ')');
                assert(sig@ == signature@);
            }
            let params = sub_vec(&sig, o + 1, c);
            let ghost all = split_commas(params@);
            let ghost mut parts: Seq<Seq<char>> = Seq::empty();
            let mut inner: Vec<char> = Vec::new();
            let mut idx: u64 = 1;
            let mut start: usize = 0;
            let mut done = false;
            proof {
                assert(params@.skip(0) =~= params@);
            }
            while !done
                invariant
                    0 <= start <= params@.len(),
                    params@.len() < usize::MAX,
                    idx == parts.len() + 1,
                    inner@ == join(parts, ", "@),
                    !done ==> snippet_parts(all, 1) == parts + snippet_parts(
                        split_commas(params@.skip(start as int)),
                        idx as nat,
                    ),
                    done ==> snippet_parts(all, 1) == parts,
                    all == split_commas(params@),
                    idx <= start + 1 + (if done { 1int } else { 0int }),
                decreases params@.len() - start + (if done { 0int } else { 1int }),
            {
                let k = find_char_from(&params, start, ',');
                let piece = sub_vec(&params, start, k);
                let ghost rest = params@.skip(start as int);
                proof {
                    if k < params@.len() {
                        assert forall|j: int| 0 <= j < k - start implies rest[j] != ',' by {
                            assert(rest[j] == params@[start + j]);
                        }
                        lemma_split_step(rest, k - start);
                        assert(rest.take(k - start) =~= piece@);
                        assert(rest.skip(k - start + 1) =~= params@.skip(k + 1));
                    } else {
                        assert forall|j: int| 0 <= j < rest.len() implies rest[j] != ',' by {
                            assert(rest[j] == params@[start + j]);
                        }
                        lemma_split_last(rest);
                        assert(rest =~= piece@);
                    }
                }
                let ghost tail = if k < params@.len() {
                    split_commas(params@.skip(k + 1))
                } else {
                    Seq::<Seq<char>>::empty()
                };
                let ghost head_parts = snippet_parts(seq![piece@], idx as nat);
                proof {
                    assert(split_commas(rest) =~= seq![piece@] + tail);
                    lemma_snippet_parts_append(seq![piece@], tail, idx as nat);
                    assert(seq![piece@].drop_first() =~= Seq::<Seq<char>>::empty());
                    assert(seq![piece@][0] == piece@);
                    assert(snippet_parts(Seq::<Seq<char>>::empty(), idx as nat).len() == 0);
                    assert(snippet_parts(Seq::<Seq<char>>::empty(), (idx + 1) as nat).len() == 0);
                    assert(snippet_parts(tail, idx as nat + head_parts.len()).len() >= 0);
                }
                let ghost old_parts = parts;
                let ghost old_idx = idx;
                let t = trim_vec(&piece);
                if t.len() > 0 {
                    let pname = param_name_of(&piece);
                    if !is_self(&pname) {
                        let mut part: Vec<char> = Vec::new();
                        part.push('$');
                        part.push('{');
                        push_decimal(&mut part, idx);
                        part.push(':');
                        push_all(&mut part, &pname);
                        part.push('}');
                        proof {
                            reveal_strlit("${");
                            reveal_strlit(":");
                            reveal_strlit("}");
                            reveal_strlit(", ");
                            assert(part@ =~= "${"@ + decimal(idx as nat) + ":"@ + param_name(
                                piece@,
                            ) + "}"@);
                            lemma_join_push(parts, part@, ", "@);
                        }
                        if idx > 1 {
                            inner.push(',');
                            inner.push(' ');
                        }
                        push_all(&mut inner, &part);
                        proof {
                            if parts.len() == 0 {
                                assert(inner@ =~= part@);
                            } else {
                                assert(inner@ =~= join(parts, ", "@) + ", "@ + part@);
                            }
                            parts = parts.push(part@);
                        }
                        idx = idx + 1;
                    }
                }
                proof {
                    assert(snippet_parts(all, 1) == parts + snippet_parts(tail, idx as nat)) by {
                        assert(snippet_parts(all, 1) == old_parts + head_parts + snippet_parts(
                            tail,
                            old_idx as nat + head_parts.len(),
                        ));
                        if t.len() > 0 && !(param_name(piece@) == "self"@) {
                            assert(head_parts.len() == 1);
                        } else {
                            assert(head_parts.len() == 0);
                            assert(parts == old_parts);
                        }
                    }
                    if k >= params@.len() {
                        assert(snippet_parts(tail, idx as nat) =~= Seq::<Seq<char>>::empty());
                    }
                }
                if k < params.len() {
                    start = k + 1;
                } else {
                    done = true;
                }
            }
            out.push('(');
            push_all(&mut out, &inner);
            out.push(')');
            proof {
                reveal_strlit("(");
                reveal_strlit(")");
                assert(out@ =~= name@ + "("@ + join(snippet_parts(all, 1), ", "@) + ")"@);
            }
        },
        _ => {
            out.push('(');
            out.push(')');
            proof {
                reveal_strlit("()");
                assert(out@ =~= name@ + "()"@);
            }
        },
    }
    string_from_chars(&out)
}

/// The receiver written before a `.` at byte offset `dot` of `s`: the run
/// of identifier characters that ends the text before the dot, once trailing
/// white space is dropped. None when `dot` is 0 or not between two
/// characters, or when no such run is there.
pub open spec fn spec_receiver_expr(s: Seq<char>, dot: int) -> Option<Seq<char>> {
    if dot == 0 {
        None
    } else {
        match char_index_at_byte(s, dot) {
            None => None,
            Some(k) => {
                let before = trim_end(s.take(k));
                let start = ident_tail_start(before);
                if before.len() > 0 && start < before.len() {
                    Some(before.skip(start))
                } else {
                    None
                }
            },
        }
    }
}

/// The receiver expression before the dot at byte offset `dot_offset`
/// (see `spec_receiver_expr`).
pub fn get_receiver_expr(text: &str, dot_offset: usize) -> (r: Option<String>)
    ensures
        match spec_receiver_expr(text@, dot_offset as int) {
            Some(t) => r matches Some(x) && x@ == t,
            None => r is None,
        },
{
    if dot_offset == 0 {
        return None;
    }
    let cs = chars_of(text);
    let nbytes = text.as_bytes().len();
    assert(nbytes == bytes_of(text@).len());
    let k = match char_index_of_byte(&cs, dot_offset) {
        Some(k) => k,
        None => {
            return None;
        },
    };
    let mut end = k;
    while end > 0 && char_is_white_space(cs[end - 1])
        invariant
            0 <= end <= k <= cs@.len(),
            forall|j: int| end <= j < k ==> is_white_space(#[trigger] cs@[j]),
        decreases end,
    {
        end = end - 1;
    }
    let ghost before = cs@.take(k as int);
    proof {
        assert forall|j: int| end <= j < before.len() implies is_white_space(
            #[trigger] before[j],
        ) by {
            assert(before[j] == cs@[j]);
        }
        lemma_trim_end_take(before, end as int);
        assert(before.take(end as int) =~= cs@.take(end as int));
        if end > 0 {
            assert(trim_end(cs@.take(end as int)) == cs@.take(end as int)) by {
                assert(cs@.take(end as int).last() == cs@[end - 1]);
            }
        } else {
            assert(cs@.take(0) =~= Seq::<char>::empty());
        }
    }
    let mut start = end;
    while start > 0 && (char_is_alphanumeric(cs[start - 1]) || cs[start - 1] == '_')
        invariant
            0 <= start <= end <= cs@.len(),
            forall|j: int| start <= j < end ==> is_ident_char(#[trigger] cs@[j]),
        decreases start,
    {
        start = start - 1;
    }
    proof {
        let b = cs@.take(end as int);
        assert forall|j: int| start <= j < b.len() implies is_ident_char(#[trigger] b[j]) by {
            assert(b[j] == cs@[j]);
        }
        if start > 0 {
            assert(b[start - 1] == cs@[start - 1]);
        }
        lemma_ident_tail_start(b, start as int);
    }
    if end > 0 && start < end {
        let piece = sub_vec(&cs, start, end);
        proof {
            assert(piece@ =~= cs@.take(end as int).skip(start as int));
        }
        Some(string_from_chars(&piece))
    } else {
        None
    }
}

} // verus!
