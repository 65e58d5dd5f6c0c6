use vstd::prelude::*;

use crate::files::texts;
use crate::plan::lemma_filter_push;

verus! {

/// The statement separator. A `;` inside a string literal or a comment is
/// still taken as one: statements are split on the plain character.
pub const SEPARATOR: char = ';';

/// The script made of the contents of the pending files, in order, each one
/// followed by a newline.
pub open spec fn script_of(parts: Seq<Seq<char>>) -> Seq<char>
    decreases parts.len(),
{
    if parts.len() == 0 {
        Seq::empty()
    } else {
        script_of(parts.drop_last()) + parts.last() + seq!['\n']
    }
}

/// The pieces of `s` between separators `sep`, as `str::split` gives them:
/// one more piece than `s` has separators.
pub open spec fn split_on(s: Seq<char>, sep: char) -> Seq<Seq<char>>
    decreases s.len(),
{
    if s.len() == 0 {
        seq![Seq::empty()]
    } else {
        let rest = split_on(s.drop_last(), sep);
        if s.last() == sep {
            rest.push(Seq::empty())
        } else {
            rest.update(rest.len() - 1, rest.last().push(s.last()))
        }
    }
}

pub open spec fn is_sql_space(c: char) -> bool {
    c == ' ' || c == '\t' || c == '\n' || c == '\r'
}

/// A piece of script with nothing but white space in it.
pub open spec fn is_blank(s: Seq<char>) -> bool {
    forall|i: int| 0 <= i < s.len() ==> is_sql_space(#[trigger] s[i])
}

pub open spec fn not_blank() -> spec_fn(Seq<char>) -> bool {
    |p: Seq<char>| !is_blank(p)
}

/// The statements of a script: its pieces between `;`, in order, leaving out
/// those with nothing but white space.
pub open spec fn statements_of(s: Seq<char>) -> Seq<Seq<char>> {
    split_on(s, SEPARATOR).filter(not_blank())
}

proof fn lemma_split_len(s: Seq<char>, sep: char)
    ensures
        split_on(s, sep).len() >= 1,
    decreases s.len(),
{
    if s.len() > 0 {
        lemma_split_len(s.drop_last(), sep);
    }
}

/// Relies on std's `String::push`: the character goes at the end.
#[verifier::external_body]
pub(crate) fn push_char(s: &mut String, c: char)
    ensures
        final(s)@ == old(s)@.push(c),
{
    s.push(c)
}

/// The characters of `s`, in order.
fn chars_of(s: &str) -> (r: Vec<char>)
    ensures
        r@ == s@,
{
    let mut v: Vec<char> = Vec::new();
    for c in it: s.chars()
        invariant
            v@ == it.seq().take(it.index() as int),
    {
        v.push(c);
        assert(v@ =~= it.seq().take(it.index() + 1));
    }
    assert(v@ =~= s@);
    v
}

/// Joins the contents of the pending files into one script: each content in
/// turn, followed by a newline.
pub fn concat_script(contents: &Vec<String>) -> (r: String)
    ensures
        r@ == script_of(texts(contents@)),
{
    let ghost parts = texts(contents@);
    let mut sql = String::new();
    let newline = "\n";
    proof {
        reveal_strlit("\n");
    }
    let mut i: usize = 0;
    while i < contents.len()
        invariant
            i <= contents.len(),
            parts == texts(contents@),
            newline@ == seq!['\n'],
            sql@ == script_of(parts.take(i as int)),
        decreases contents.len() - i,
    {
        sql.append(contents[i].as_str());
        sql.append(newline);
        assert(parts.take(i + 1).drop_last() =~= parts.take(i as int));
        i = i + 1;
    }
    assert(parts.take(contents.len() as int) =~= parts);
    sql
}

/// Splits a script into the statements to execute: the pieces between `;`
/// that hold more than white space, in order.
pub fn split_statements(script: &str) -> (r: Vec<String>)
    ensures
        texts(r@) == statements_of(script@),
{
    let cs = chars_of(script);
    let ghost s = script@;
    let mut out: Vec<String> = Vec::new();
    let mut cur = String::new();
    let mut cur_blank = true;
    let mut i: usize = 0;
    proof {
        assert(s.take(0) =~= Seq::<char>::empty());
    }
    while i < cs.len()
        invariant
            cs@ == s,
            i <= cs.len(),
            split_on(s.take(i as int), SEPARATOR).len() >= 1,
            cur@ == split_on(s.take(i as int), SEPARATOR).last(),
            texts(out@) == split_on(s.take(i as int), SEPARATOR).drop_last().filter(not_blank()),
            cur_blank == is_blank(cur@),
        decreases cs.len() - i,
    {
        let c = cs[i];
        let ghost before = split_on(s.take(i as int), SEPARATOR);
        proof {
            assert(s.take(i + 1).drop_last() =~= s.take(i as int));
            assert(s.take(i + 1).last() == c);
        }
        if c == SEPARATOR {
            if !cur_blank {
                out.push(cur);
            }
            proof {
                assert(before =~= before.drop_last().push(before.last()));
                lemma_filter_push(before.drop_last(), before.last(), not_blank());
                let after = split_on(s.take(i + 1), SEPARATOR);
                assert(after == before.push(Seq::empty()));
                assert(after.drop_last() =~= before);
                assert(texts(out@) =~= before.filter(not_blank()));
            }
            cur = String::new();
            cur_blank = true;
            proof {
                assert(cur@ =~= Seq::<char>::empty());
            }
        } else {
            let ghost old_cur = cur@;
            push_char(&mut cur, c);
            cur_blank = cur_blank && (c == ' ' || c == '\t' || c == '\n' || c == '\r');
            proof {
                let after = split_on(s.take(i + 1), SEPARATOR);
                assert(after == before.update(before.len() - 1, before.last().push(c)));
                assert(after.drop_last() =~= before.drop_last());
                assert(cur_blank == is_blank(cur@)) by {
                    if !is_blank(cur@) && cur_blank {
                        let j = choose|j: int| 0 <= j < cur@.len() && !is_sql_space(#[trigger] cur@[j]);
                        if j < old_cur.len() {
                            assert(cur@[j] == old_cur[j]);
                        }
                    }
                    if is_blank(cur@) {
                        assert(is_sql_space(cur@[cur@.len() - 1]));
                        assert forall|j: int| 0 <= j < old_cur.len() implies is_sql_space(
                            #[trigger] old_cur[j],
                        ) by {
                            assert(cur@[j] == old_cur[j]);
                        }
                    }
                }
            }
        }
        i = i + 1;
        proof {
            lemma_split_len(s.take(i as int), SEPARATOR);
        }
    }
    proof {
        assert(s.take(cs.len() as int) =~= s);
        let all = split_on(s, SEPARATOR);
        assert(all =~= all.drop_last().push(all.last()));
        lemma_filter_push(all.drop_last(), all.last(), not_blank());
    }
    if !cur_blank {
        out.push(cur);
    }
    proof {
        let all = split_on(s, SEPARATOR);
        assert(texts(out@) =~= all.filter(not_blank()));
    }
    out
}

} // verus!
