//! Cassette file naming: one file per test, named from the test's
//! identifying name with its module separators normalized.

use vstd::prelude::*;
use vstd::string::StrSliceExecFns;
use vstd::string::StringExecFns;

verus! {

/// A test name with every `::` separator turned into `_`.
pub open spec fn normalized_name(s: Seq<char>) -> Seq<char>
    decreases s.len(),
{
    if s.len() >= 2 && s[0] == ':' && s[1] == ':' {
        seq!['_'] + normalized_name(s.skip(2))
    } else if s.len() >= 1 {
        seq![s[0]] + normalized_name(s.skip(1))
    } else {
        Seq::empty()
    }
}

/// Turns a test's identifying name into its cassette file stem, replacing
/// each `::` module separator with `_`.
pub fn normalize_test_name(name: &String) -> (r: String)
    ensures
        r@ == normalized_name(name@),
{
    let s = name.as_str();
    let len = s.unicode_len();
    let mut out = String::new();
    let mut i: usize = 0;
    proof {
        assert(s@.skip(0) =~= s@);
        assert(out@ + normalized_name(s@.skip(0)) =~= normalized_name(s@));
    }
    while i < len
        invariant
            i <= len,
            len == s@.len(),
            out@ + normalized_name(s@.skip(i as int)) == normalized_name(s@),
        decreases len - i,
    {
        let ghost pre = out@;
        if i + 1 < len && s.get_char(i) == ':' && s.get_char(i + 1) == ':' {
            out.append("_");
            proof {
                reveal_strlit("_");
                let t = s@.skip(i as int);
                assert(t.len() >= 2);
                assert(t[0] == s@[i as int]);
                assert(t[1] == s@[i + 1]);
                assert(t.skip(2) =~= s@.skip(i + 2));
                assert(normalized_name(t) == seq!['_'] + normalized_name(s@.skip(i + 2)));
                assert(out@ =~= pre + seq!['_']);
                assert(out@ + normalized_name(s@.skip(i + 2)) =~= pre + normalized_name(t));
            }
            i += 2;
        } else {
            let piece = s.substring_char(i, i + 1);
            out.append(piece);
            proof {
                let t = s@.skip(i as int);
                assert(t.len() >= 1);
                assert(t[0] == s@[i as int]);
                if t.len() >= 2 && t[0] == ':' && t[1] == ':' {
                    assert(s@[i + 1] == t[1]);
                    assert(false);
                }
                assert(t.skip(1) =~= s@.skip(i + 1));
                assert(normalized_name(t) == seq![t[0]] + normalized_name(s@.skip(i + 1)));
                assert(piece@ =~= seq![s@[i as int]]);
                assert(out@ =~= pre + seq![s@[i as int]]);
                assert(out@ + normalized_name(s@.skip(i + 1)) =~= pre + normalized_name(t));
            }
            i += 1;
        }
    }
    proof {
        assert(s@.skip(len as int) =~= Seq::<char>::empty());
        assert(normalized_name(s@.skip(len as int)) == Seq::<char>::empty());
        assert(out@ + Seq::<char>::empty() =~= out@);
    }
    out
}

/// The cassette file for a test: its normalized name inside the fixed
/// cassette-storage directory.
pub fn cache_file(name: &str) -> (r: String)
    ensures
        r@ == "src/http-data/"@ + name@,
{
    let mut out = String::from_str("src/http-data/");
    out.append(name);
    out
}

} // verus!
