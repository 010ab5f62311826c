use vstd::prelude::*;

verus! {

/// The program's banner, without surrounding blank lines.
pub const BANNER: &'static str = "██████╗ ██╗      ██╗ ██╗███╗   ██╗██╗  ██╗
██╔══██╗██║      ██║███║████╗  ██║██║ ██╔╝
██████╔╝██║      ██║╚██║██╔██╗ ██║█████╔╝ 
██╔══██╗██║      ██║ ██║██║╚██╗██║██╔═██╗ 
██████╔╝███████╗ ██║ ██║██║ ╚████║██║  ██╗
╚═════╝ ╚══════╝ ╚═╝ ╚═╝╚═╝  ╚═══╝╚═╝  ╚═╝";

/// The tagline shown under the banner.
pub const TAGLINE: &'static str = "Bl1nk Team Kit - Spec-Driven Development Toolkit";

/// `s` with a space after every character but the line breaks.
pub open spec fn spaced(s: Seq<char>) -> Seq<char>
    decreases s.len(),
{
    if s.len() == 0 {
        Seq::<char>::empty()
    } else if s.last() == '\n' {
        spaced(s.drop_last()).push('\n')
    } else {
        spaced(s.drop_last()).push(s.last()).push(' ')
    }
}

/// Every line of `text` with a space after each character, each line ended
/// by a line break.
pub fn spaced_lines(text: &str) -> (r: String)
    ensures
        r@ == spaced(text@).push('\n'),
{
    let n = text.unicode_len();
    let mut out = String::new();
    let mut i: usize = 0;
    proof {
        reveal_strlit(" ");
        reveal_strlit("\n");
    }
    assert(text@.subrange(0, 0) =~= Seq::<char>::empty());
    while i < n
        invariant
            n == text@.len(),
            0 <= i <= n,
            out@ == spaced(text@.subrange(0, i as int)),
            " "@ == seq![' '],
        decreases n - i,
    {
        assert(text@.subrange(0, i + 1).drop_last() =~= text@.subrange(0, i as int));
        let piece = text.substring_char(i, i + 1);
        assert(piece@ =~= seq![text@[i as int]]);
        out.append(piece);
        if text.get_char(i) != '\n' {
            out.append(" ");
        }
        i = i + 1;
    }
    out.append("\n");
    assert(text@.subrange(0, n as int) =~= text@);
    out
}

/// The banner with a space after every character, for readability.
pub fn spaced_banner() -> (r: String)
    ensures
        r@ == spaced(BANNER@).push('\n'),
{
    spaced_lines(BANNER)
}

} // verus!
