//! Structured identifiers and their rendering into F# identifiers.
//!
//! A `Name` is a sequence of word parts.  Rendering concatenates the
//! parts in camel case and then applies the backend substitution table
//! (`conv`), which maps literal substrings to the target's native type
//! names.

use vstd::prelude::*;

verus! {

/// ASCII lowercase letters become uppercase; every other character is
/// unchanged.
pub open spec fn cap_char(c: char) -> char {
    if 97 <= (c as u32) && (c as u32) <= 122 {
        ((((c as u32) - 32) as u8) as char)
    } else {
        c
    }
}

/// A word with its first character capitalized.
pub open spec fn cap_first(s: Seq<char>) -> Seq<char> {
    if s.len() == 0 {
        s
    } else {
        seq![cap_char(s[0])] + s.drop_first()
    }
}

/// The camel-case concatenation of a sequence of word parts.
pub open spec fn camel(parts: Seq<Seq<char>>) -> Seq<char>
    decreases parts.len(),
{
    if parts.len() == 0 {
        Seq::empty()
    } else {
        cap_first(parts[0]) + camel(parts.drop_first())
    }
}

/// Left-to-right, non-overlapping replacement of `pat` by `rep` in `s`.
/// An empty pattern replaces nothing.
pub open spec fn replace_seq(s: Seq<char>, pat: Seq<char>, rep: Seq<char>) -> Seq<char>
    decreases s.len(),
{
    if pat.len() == 0 {
        s
    } else if s.len() < pat.len() {
        s
    } else if s.take(pat.len() as int) == pat {
        rep + replace_seq(s.skip(pat.len() as int), pat, rep)
    } else {
        seq![s[0]] + replace_seq(s.drop_first(), pat, rep)
    }
}

/// The backend substitution table applied after camel-casing: primitive
/// type suffixes become the F# native type names, and `Params` is
/// pluralized.
pub open spec fn conv_spec(s: Seq<char>) -> Seq<char> {
    replace_seq(
        replace_seq(
            replace_seq(
                replace_seq(replace_seq(s, "Int32"@, "Int"@), "Int64"@, "Long"@),
                "Float32"@,
                "Single"@,
            ),
            "Float64"@,
            "Double"@,
        ),
        "Params"@,
        "Parameters"@,
    )
}

/// The rendered F# identifier of a structured name.
pub open spec fn fs_name(parts: Seq<Seq<char>>) -> Seq<char> {
    conv_spec(camel(parts))
}

fn cap_char_exec(c: char) -> (r: char)
    ensures
        r == cap_char(c),
{
    let u = c as u32;
    if 97 <= u && u <= 122 {
        ((u - 32) as u8) as char
    } else {
        c
    }
}

/// A structured identifier: an ordered sequence of word parts.
pub struct Name {
    pub parts: Vec<String>,
}

impl Name {
    /// The sequence of word parts, as sequences of characters.
    pub open spec fn parts_view(&self) -> Seq<Seq<char>> {
        self.parts.deep_view()
    }

    pub fn new(parts: Vec<String>) -> (n: Name)
        ensures
            n.parts_view() == parts.deep_view(),
    {
        Name { parts }
    }

    /// The camel-case concatenation of the parts.
    pub fn camel_case(&self) -> (r: String)
        ensures
            r@ == camel(self.parts_view()),
    {
        let ghost all = self.parts_view();
        let mut out = String::new();
        let mut i: usize = 0;
        proof {
            assert(all.skip(0) =~= all);
            assert(out@ + camel(all) =~= camel(all));
        }
        while i < self.parts.len()
            invariant
                i <= self.parts.len(),
                all == self.parts_view(),
                camel(all) == out@ + camel(all.skip(i as int)),
            decreases self.parts.len() - i,
        {
            let ghost rest = all.skip(i as int);
            let ghost pre = out@;
            proof {
                assert(rest[0] == all[i as int]);
                assert(rest.drop_first() =~= all.skip(i + 1));
            }
            let part: &String = &self.parts[i];
            let plen = part.as_str().unicode_len();
            proof {
                assert(part@ == all[i as int]);
            }
            if plen > 0 {
                let c0 = part.as_str().get_char(0);
                out.push(cap_char_exec(c0));
                let tail = part.as_str().substring_char(1, plen);
                out.append(tail);
                proof {
                    assert(tail@ =~= part@.drop_first());
                    assert(out@ =~= pre + cap_first(all[i as int]));
                }
            } else {
                proof {
                    assert(cap_first(all[i as int]) =~= Seq::<char>::empty());
                    assert(out@ =~= pre + cap_first(all[i as int]));
                }
            }
            proof {
                assert(pre + (cap_first(all[i as int]) + camel(all.skip(i + 1))) =~= (pre
                    + cap_first(all[i as int])) + camel(all.skip(i + 1)));
            }
            i = i + 1;
        }
        proof {
            assert(all.skip(i as int) =~= Seq::<Seq<char>>::empty());
            assert(out@ + camel(all.skip(i as int)) =~= out@);
        }
        out
    }
}

/// Whether `pat` occurs in `s` at position `i`.
fn match_at(s: &str, slen: usize, i: usize, pat: &str, plen: usize) -> (b: bool)
    requires
        slen == s@.len(),
        plen == pat@.len(),
        i + plen <= slen,
    ensures
        b == (s@.subrange(i as int, i + plen) == pat@),
{
    let mut j: usize = 0;
    while j < plen
        invariant
            j <= plen,
            slen == s@.len(),
            plen == pat@.len(),
            i + plen <= slen,
            forall|k: int| 0 <= k < j ==> s@[i + k] == pat@[k],
        decreases plen - j,
    {
        if s.get_char(i + j) != pat.get_char(j) {
            proof {
                assert(s@.subrange(i as int, i + plen)[j as int] != pat@[j as int]);
            }
            return false;
        }
        j = j + 1;
    }
    proof {
        assert(s@.subrange(i as int, i + plen) =~= pat@);
    }
    true
}

/// Replace every left-to-right, non-overlapping occurrence of `pat` in
/// `s` by `rep`.
pub fn replace_all(s: &str, pat: &str, rep: &str) -> (r: String)
    requires
        pat@.len() > 0,
    ensures
        r@ == replace_seq(s@, pat@, rep@),
{
    let slen = s.unicode_len();
    let plen = pat.unicode_len();
    let mut out = String::new();
    let mut i: usize = 0;
    proof {
        assert(s@.skip(0) =~= s@);
        assert(out@ + replace_seq(s@, pat@, rep@) =~= replace_seq(s@, pat@, rep@));
    }
    while i < slen
        invariant
            i <= slen,
            slen == s@.len(),
            plen == pat@.len(),
            plen > 0,
            replace_seq(s@, pat@, rep@) == out@ + replace_seq(s@.skip(i as int), pat@, rep@),
        decreases slen - i,
    {
        let ghost rest = s@.skip(i as int);
        let ghost pre = out@;
        if plen <= slen - i && match_at(s, slen, i, pat, plen) {
            proof {
                assert(rest.take(plen as int) =~= s@.subrange(i as int, i + plen));
                assert(rest.skip(plen as int) =~= s@.skip(i + plen));
                assert(replace_seq(rest, pat@, rep@) == rep@ + replace_seq(
                    s@.skip(i + plen),
                    pat@,
                    rep@,
                ));
                assert(pre + (rep@ + replace_seq(s@.skip(i + plen), pat@, rep@)) =~= (pre + rep@)
                    + replace_seq(s@.skip(i + plen), pat@, rep@));
            }
            out.append(rep);
            i = i + plen;
        } else {
            let c = s.get_char(i);
            proof {
                assert(rest[0] == c);
                assert(rest.drop_first() =~= s@.skip(i + 1));
                if rest.len() >= plen {
                    assert(rest.take(plen as int) =~= s@.subrange(i as int, i + plen));
                    assert(rest.take(plen as int) != pat@);
                    assert(replace_seq(rest, pat@, rep@) == seq![c] + replace_seq(
                        s@.skip(i + 1),
                        pat@,
                        rep@,
                    ));
                } else {
                    assert(replace_seq(rest, pat@, rep@) == rest);
                    assert(replace_seq(s@.skip(i + 1), pat@, rep@) == s@.skip(i + 1));
                    assert(rest =~= seq![c] + s@.skip(i + 1));
                }
                assert(pre + (seq![c] + replace_seq(s@.skip(i + 1), pat@, rep@)) =~= (pre
                    + seq![c]) + replace_seq(s@.skip(i + 1), pat@, rep@));
            }
            out.push(c);
            proof {
                assert(out@ =~= pre + seq![c]);
            }
            i = i + 1;
        }
    }
    proof {
        assert(s@.skip(i as int) =~= Seq::<char>::empty());
        assert(out@ + replace_seq(s@.skip(i as int), pat@, rep@) =~= out@);
    }
    out
}

/// The backend substitution table of this F# backend.
pub fn conv(name: &str) -> (r: String)
    ensures
        r@ == conv_spec(name@),
{
    proof {
        reveal_strlit("Int32");
        reveal_strlit("Int64");
        reveal_strlit("Float32");
        reveal_strlit("Float64");
        reveal_strlit("Params");
    }
    let s1 = replace_all(name, "Int32", "Int");
    let s2 = replace_all(s1.as_str(), "Int64", "Long");
    let s3 = replace_all(s2.as_str(), "Float32", "Single");
    let s4 = replace_all(s3.as_str(), "Float64", "Double");
    replace_all(s4.as_str(), "Params", "Parameters")
}

/// The rendered F# identifier of a name: camel case, then the backend
/// substitution table.
pub fn render_name(name: &Name) -> (r: String)
    ensures
        r@ == fs_name(name.parts_view()),
{
    let c = name.camel_case();
    conv(c.as_str())
}

} // verus!

verus! {

/// The word parts of an identifier written with underscores: the
/// pieces between the underscores, in order; consecutive underscores
/// yield empty pieces, which render as nothing.
pub open spec fn split_parts(s: Seq<char>) -> Seq<Seq<char>>
    decreases s.len(),
{
    if s.len() == 0 {
        seq![Seq::<char>::empty()]
    } else {
        let rest = split_parts(s.drop_first());
        if s[0] == '_' {
            seq![Seq::<char>::empty()] + rest
        } else {
            seq![seq![s[0]] + rest[0]] + rest.drop_first()
        }
    }
}

/// `split_parts` always yields at least one piece.
proof fn lemma_split_parts_len(s: Seq<char>)
    ensures
        split_parts(s).len() >= 1,
    decreases s.len(),
{
    if s.len() > 0 {
        lemma_split_parts_len(s.drop_first());
    }
}

/// Split an identifier on underscores into its word parts.
pub fn split_underscore(s: &str) -> (v: Vec<String>)
    ensures
        v.deep_view() == split_parts(s@),
{
    let n = s.unicode_len();
    let mut parts: Vec<String> = Vec::new();
    let mut cur = String::new();
    let mut i: usize = 0;
    proof {
        assert(s@.skip(0) =~= s@);
        lemma_split_parts_len(s@);
        assert(parts.deep_view() =~= Seq::<Seq<char>>::empty());
        assert(Seq::<Seq<char>>::empty() + (seq![cur@ + split_parts(s@)[0]] + split_parts(
            s@,
        ).drop_first()) =~= seq![cur@ + split_parts(s@)[0]] + split_parts(s@).drop_first());
        assert(cur@ + split_parts(s@)[0] =~= split_parts(s@)[0]);
        assert(seq![split_parts(s@)[0]] + split_parts(s@).drop_first() =~= split_parts(s@));
    }
    while i < n
        invariant
            i <= n,
            n == s@.len(),
            split_parts(s@) == parts.deep_view() + (seq![cur@ + split_parts(s@.skip(i as int))[0]]
                + split_parts(s@.skip(i as int)).drop_first()),
        decreases n - i,
    {
        let ghost rest = s@.skip(i as int);
        let ghost restp = split_parts(s@.skip(i + 1));
        let c = s.get_char(i);
        proof {
            assert(rest[0] == c);
            assert(rest.drop_first() =~= s@.skip(i + 1));
            lemma_split_parts_len(s@.skip(i + 1));
        }
        if c == '_' {
            let ghost pv = parts.deep_view();
            let ghost cv = cur@;
            parts.push(cur);
            cur = String::new();
            proof {
                assert(parts.deep_view() =~= pv.push(cv));
                // split of the remainder begins with an empty piece
                assert(split_parts(rest) =~= seq![Seq::<char>::empty()] + restp);
                assert(cv + split_parts(rest)[0] =~= cv);
                assert(split_parts(rest).drop_first() =~= restp);
                assert(pv + (seq![cv] + restp) =~= pv.push(cv) + (seq![cur@ + restp[0]]
                    + restp.drop_first()));
            }
        } else {
            let ghost cv = cur@;
            cur.push(c);
            proof {
                assert(split_parts(rest) =~= seq![seq![c] + restp[0]] + restp.drop_first());
                assert(cv + (seq![c] + restp[0]) =~= cur@ + restp[0]);
                assert(split_parts(rest).drop_first() =~= restp.drop_first());
                assert(parts.deep_view() + (seq![cv + split_parts(rest)[0]] + split_parts(
                    rest,
                ).drop_first()) =~= parts.deep_view() + (seq![cur@ + restp[0]]
                    + restp.drop_first()));
            }
        }
        i = i + 1;
    }
    proof {
        assert(s@.skip(n as int) =~= Seq::<char>::empty());
        assert(cur@ + split_parts(s@.skip(n as int))[0] =~= cur@);
        assert(split_parts(s@.skip(n as int)).drop_first() =~= Seq::<Seq<char>>::empty());
    }
    let ghost pv = parts.deep_view();
    let ghost cv = cur@;
    parts.push(cur);
    proof {
        assert(parts.deep_view() =~= pv.push(cv));
        assert(pv + (seq![cv] + Seq::<Seq<char>>::empty()) =~= pv.push(cv));
    }
    parts
}

} // verus!
