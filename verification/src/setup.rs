//! Checking a browser's flags file for the remote-debugging switch.
use vstd::prelude::*;
use crate::text::{chars_of, contains_seq, push_char, push_str, str_contains};

verus! {

/// `s` with every '~' replaced by `home` (`str::replace("~", home)`).
pub open spec fn replace_tilde(s: Seq<char>, home: Seq<char>) -> Seq<char>
    decreases s.len(),
{
    if s.len() == 0 {
        Seq::empty()
    } else {
        replace_tilde(s.drop_last(), home) + if s.last() == '~' {
            home
        } else {
            seq![s.last()]
        }
    }
}

/// Replacing '~' works piece by piece: the replacement of a concatenation is
/// the concatenation of the replacements, a lone '~' becomes the home
/// directory, and text without '~' is left as it is.
pub proof fn lemma_replace_tilde_pieces(a: Seq<char>, b: Seq<char>, home: Seq<char>)
    ensures
        replace_tilde(a + b, home) == replace_tilde(a, home) + replace_tilde(b, home),
        replace_tilde(seq!['~'], home) == home,
        (forall|k: int| 0 <= k < a.len() ==> a[k] != '~') ==> replace_tilde(a, home) == a,
    decreases b.len(),
{
    let t = seq!['~'];
    assert(t.drop_last() =~= Seq::<char>::empty());
    assert(replace_tilde(t.drop_last(), home) == Seq::<char>::empty());
    assert(t.last() == '~');
    assert(Seq::<char>::empty() + home =~= home);
    if b.len() == 0 {
        assert(a + b =~= a);
        assert(replace_tilde(b, home) == Seq::<char>::empty());
        assert(replace_tilde(a, home) + replace_tilde(b, home) =~= replace_tilde(a, home));
    } else {
        lemma_replace_tilde_pieces(a, b.drop_last(), home);
        assert((a + b).drop_last() =~= a + b.drop_last());
        assert((a + b).last() == b.last());
        let x = if b.last() == '~' {
            home
        } else {
            seq![b.last()]
        };
        assert(replace_tilde(a, home) + replace_tilde(b.drop_last(), home) + x =~= replace_tilde(a, home)
            + (replace_tilde(b.drop_last(), home) + x));
    }
    lemma_replace_tilde_plain(a, home);
}

proof fn lemma_replace_tilde_plain(a: Seq<char>, home: Seq<char>)
    ensures
        (forall|k: int| 0 <= k < a.len() ==> a[k] != '~') ==> replace_tilde(a, home) == a,
    decreases a.len(),
{
    if a.len() > 0 && (forall|k: int| 0 <= k < a.len() ==> a[k] != '~') {
        lemma_replace_tilde_plain(a.drop_last(), home);
        assert(forall|k: int| 0 <= k < a.drop_last().len() ==> a.drop_last()[k] == a[k]);
        assert(a.last() == a[a.len() - 1]);
        assert(a.drop_last() + seq![a.last()] =~= a);
    }
}

/// The flags file path with each '~' replaced by the home directory.
pub fn flags_file_path(flags_file: &str, home: &str) -> (r: String)
    ensures
        r@ == replace_tilde(flags_file@, home@),
{
    let v = chars_of(flags_file);
    let n = v.len();
    let mut out = String::new();
    let mut i: usize = 0;
    while i < n
        invariant
            n == v@.len(),
            v@ == flags_file@,
            i <= n,
            out@ == replace_tilde(v@.take(i as int), home@),
        decreases n - i,
    {
        proof {
            assert(v@.take(i + 1).drop_last() =~= v@.take(i as int));
            assert(v@.take(i + 1).last() == v@[i as int]);
        }
        if v[i] == '~' {
            push_str(&mut out, home);
        } else {
            push_char(&mut out, v[i]);
            assert(out@ =~= replace_tilde(v@.take(i + 1), home@));
        }
        i = i + 1;
    }
    assert(v@.take(n as int) =~= v@);
    out
}

/// Whether a flags file enables remote debugging.
pub fn has_remote_debugging_flag(contents: &str) -> (b: bool)
    ensures
        b == contains_seq(contents@, "--remote-debugging-port"@),
{
    str_contains(contents, "--remote-debugging-port")
}

} // verus!
