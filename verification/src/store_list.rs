//! The store-list parser.
//!
//! The user supplies a small text resource holding a comma-separated list
//! of store identifiers.  Line endings are stripped before splitting, so
//! identifiers may not contain commas nor rely on line breaks as
//! separators.  Empty tokens and duplicates are kept: later stages must
//! tolerate both.

use vstd::prelude::*;
use vstd::string::StrSliceExecFns;
use vstd::string::StringExecFns;

verus! {

/// `s` with every line ending removed: each `\n`, and each `\r` that
/// immediately precedes a `\n`, disappears; a lone `\r` stays.
pub open spec fn strip_newlines(s: Seq<char>) -> Seq<char>
    decreases s.len(),
{
    if s.len() == 0 {
        Seq::empty()
    } else if s[0] == '\n' {
        strip_newlines(s.drop_first())
    } else if s[0] == '\r' && s.len() >= 2 && s[1] == '\n' {
        strip_newlines(s.subrange(2, s.len() as int))
    } else {
        seq![s[0]] + strip_newlines(s.drop_first())
    }
}

/// `s` split at every comma.  An empty input yields one empty token, and
/// a trailing comma yields a trailing empty token, as splitting on a
/// separator does.
pub open spec fn split_commas(s: Seq<char>) -> Seq<Seq<char>>
    decreases s.len(),
{
    if s.len() == 0 {
        seq![Seq::empty()]
    } else if s.last() == ',' {
        split_commas(s.drop_last()).push(Seq::empty())
    } else {
        let r = split_commas(s.drop_last());
        r.update(r.len() - 1, r.last().push(s.last()))
    }
}

/// Splitting always yields at least one token.
pub proof fn lemma_split_commas_nonempty(s: Seq<char>)
    ensures
        split_commas(s).len() >= 1,
    decreases s.len(),
{
    if s.len() == 0 {
    } else {
        lemma_split_commas_nonempty(s.drop_last());
    }
}

/// The identifiers drawn from the raw text of the store-list resource.
pub open spec fn store_ids(text: Seq<char>) -> Seq<Seq<char>> {
    split_commas(strip_newlines(text))
}

/// `text` with every line ending removed.
pub fn strip_newline_chars(text: &str) -> (r: String)
    ensures
        r@ == strip_newlines(text@),
{
    let len: usize = text.unicode_len();
    let mut out: String = String::new();
    let mut run_start: usize = 0;
    let mut i: usize = 0;
    proof {
        assert(text@.skip(0) =~= text@);
        assert(out@ + text@.subrange(0, 0) + strip_newlines(text@) =~= strip_newlines(text@));
    }
    while i < len
        invariant
            run_start <= i <= len,
            len == text@.len(),
            strip_newlines(text@) == out@ + text@.subrange(run_start as int, i as int)
                + strip_newlines(text@.skip(i as int)),
        decreases len - i,
    {
        let ghost rest: Seq<char> = text@.skip(i as int);
        proof {
            assert(rest[0] == text@[i as int]);
            assert(rest.drop_first() =~= text@.skip(i as int + 1));
        }
        let c: char = text.get_char(i);
        if c == '\n' {
            out.append(text.substring_char(run_start, i));
            proof {
                assert(strip_newlines(rest) == strip_newlines(text@.skip(i as int + 1)));
                assert(out@ + text@.subrange(i as int + 1, i as int + 1) =~= out@);
            }
            i = i + 1;
            run_start = i;
        } else if c == '\r' && i + 1 < len && text.get_char(i + 1) == '\n' {
            proof {
                assert(rest.len() >= 2 && rest[1] == text@[i as int + 1]);
                assert(rest.subrange(2, rest.len() as int) =~= text@.skip(i as int + 2));
            }
            out.append(text.substring_char(run_start, i));
            proof {
                assert(strip_newlines(rest) == strip_newlines(text@.skip(i as int + 2)));
                assert(out@ + text@.subrange(i as int + 2, i as int + 2) =~= out@);
            }
            i = i + 2;
            run_start = i;
        } else {
            proof {
                if c == '\r' {
                    assert(i + 1 < len ==> text@[i as int + 1] != '\n');
                    assert(!(rest.len() >= 2 && rest[1] == '\n'));
                }
                assert(strip_newlines(rest) == seq![text@[i as int]] + strip_newlines(
                    text@.skip(i as int + 1),
                ));
                assert(out@ + text@.subrange(run_start as int, i as int) + (seq![text@[i as int]]
                    + strip_newlines(text@.skip(i as int + 1))) =~= out@ + text@.subrange(
                    run_start as int,
                    i as int + 1,
                ) + strip_newlines(text@.skip(i as int + 1)));
            }
            i = i + 1;
        }
    }
    proof {
        assert(text@.skip(len as int) =~= Seq::<char>::empty());
        assert(strip_newlines(Seq::<char>::empty()) =~= Seq::<char>::empty());
        assert(out@ + text@.subrange(run_start as int, len as int) + Seq::<char>::empty()
            =~= out@ + text@.subrange(run_start as int, len as int));
    }
    out.append(text.substring_char(run_start, len));
    out
}

/// `text` split at every comma, each token as its own string.
pub fn split_on_commas(text: &str) -> (r: Vec<String>)
    ensures
        r.deep_view() == split_commas(text@),
{
    let len: usize = text.unicode_len();
    let mut out: Vec<String> = Vec::new();
    let mut start: usize = 0;
    let mut i: usize = 0;
    while i < len
        invariant
            start <= i <= len,
            len == text@.len(),
            split_commas(text@.take(i as int)).len() == out.deep_view().len() + 1,
            out.deep_view() == split_commas(text@.take(i as int)).drop_last(),
            split_commas(text@.take(i as int)).last() == text@.subrange(start as int, i as int),
        decreases len - i,
    {
        let ghost before: Seq<Seq<char>> = split_commas(text@.take(i as int));
        let ghost after: Seq<Seq<char>> = split_commas(text@.take(i as int + 1));
        proof {
            assert(text@.take(i as int + 1).drop_last() =~= text@.take(i as int));
            assert(text@.take(i as int + 1).last() == text@[i as int]);
        }
        let c: char = text.get_char(i);
        if c == ',' {
            let ghost old_dv: Seq<Seq<char>> = out.deep_view();
            out.push(String::from_str(text.substring_char(start, i)));
            proof {
                assert(after == before.push(Seq::<char>::empty()));
                assert(out.deep_view() =~= old_dv.push(text@.subrange(start as int, i as int)));
                assert(after.drop_last() =~= before);
                assert(out.deep_view() =~= before.drop_last().push(before.last()));
                assert(before.drop_last().push(before.last()) =~= before);
                assert(after.last() =~= text@.subrange(i as int + 1, i as int + 1));
            }
            start = i + 1;
        } else {
            proof {
                lemma_split_commas_nonempty(text@.take(i as int));
                assert(after == before.update(
                    before.len() - 1,
                    before.last().push(text@[i as int]),
                ));
                assert(after.drop_last() =~= before.drop_last());
                assert(after.last() == before.last().push(text@[i as int]));
                assert(text@.subrange(start as int, i as int).push(text@[i as int])
                    =~= text@.subrange(start as int, i as int + 1));
            }
        }
        i = i + 1;
    }
    let ghost whole: Seq<Seq<char>> = split_commas(text@);
    proof {
        assert(text@.take(len as int) =~= text@);
    }
    let ghost old_dv: Seq<Seq<char>> = out.deep_view();
    out.push(String::from_str(text.substring_char(start, len)));
    proof {
        assert(out.deep_view() =~= old_dv.push(text@.subrange(start as int, len as int)));
        assert(out.deep_view() =~= whole.drop_last().push(whole.last()));
        assert(whole.drop_last().push(whole.last()) =~= whole);
    }
    out
}

/// Turns the raw text of the store-list resource into the ordered list of
/// store identifiers: line endings are stripped, then the text is split
/// at every comma.  Duplicates and empty tokens are kept.
pub fn parse_store_list(text: &str) -> (r: Vec<String>)
    ensures
        r.deep_view() == store_ids(text@),
{
    let stripped: String = strip_newline_chars(text);
    split_on_commas(stripped.as_str())
}

} // verus!
