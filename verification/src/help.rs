//! The section of the help text that explains the profiles.

use crate::profile::EppValue;
use vstd::prelude::*;

verus! {

/// The length of the first line of `s`: the number of characters before its
/// first line feed, all of them if it has none.
pub open spec fn line_end(s: Seq<char>) -> int
    decreases s.len(),
{
    if s.len() == 0 || s[0] == '\n' {
        0
    } else {
        1 + line_end(s.drop_first())
    }
}

/// The lines of `s`, each with `indent` before it and a line feed after it.
/// Lines are parted by line feeds; a line feed at the very end starts no new
/// line.
pub open spec fn indent_lines(s: Seq<char>, indent: Seq<char>) -> Seq<char>
    decreases s.len(),
{
    if s.len() == 0 {
        Seq::<char>::empty()
    } else {
        let k = line_end(s);
        let rest = if 0 <= k < s.len() {
            indent_lines(s.skip(k + 1), indent)
        } else {
            Seq::<char>::empty()
        };
        indent + s.take(k) + seq!['\n'] + rest
    }
}

/// What the help text says of one profile: its token after a bullet, then its
/// description, indented by two spaces.
pub open spec fn help_entry(profile: EppValue) -> Seq<char> {
    "- "@ + profile.token() + seq!['\n'] + indent_lines(profile.description_text(), "  "@)
}

/// The heading, then the entries of `profiles` in order.
pub open spec fn help_section(profiles: Seq<EppValue>) -> Seq<char>
    decreases profiles.len(),
{
    if profiles.len() == 0 {
        "EPP Profiles Explanations:\n"@
    } else {
        help_section(profiles.drop_last()) + help_entry(profiles.last())
    }
}

/// The section of the help text that explains the four profiles, by
/// ascending level.
pub open spec fn profile_help() -> Seq<char> {
    help_section(
        seq![
            EppValue::Performance,
            EppValue::BalancePerformance,
            EppValue::BalancePower,
            EppValue::Power,
        ],
    )
}

/// Appends the indented lines of `text` to `out`.
pub fn push_indented(out: &mut String, text: &str, indent: &str)
    ensures
        final(out)@ == old(out)@ + indent_lines(text@, indent@),
{
    let n: usize = text.unicode_len();
    let mut start: usize = 0;
    let mut i: usize = 0;
    proof {
        assert(text@.skip(0) =~= text@);
        assert(out@ + indent_lines(text@, indent@) =~= old(out)@ + indent_lines(text@, indent@));
    }
    while i < n
        invariant
            n == text@.len(),
            start <= i <= n,
            out@ + indent_lines(text@.skip(start as int), indent@) == old(out)@ + indent_lines(
                text@,
                indent@,
            ),
            line_end(text@.skip(start as int)) == (i - start) + line_end(text@.skip(i as int)),
        decreases n - i,
    {
        let c: char = text.get_char(i);
        let ghost line: Seq<char> = text@.skip(start as int);
        let ghost before: Seq<char> = out@;
        proof {
            assert(text@.skip(i as int)[0] == c);
            assert(text@.skip(i as int).drop_first() =~= text@.skip(i as int + 1));
        }
        if c == '\n' {
            out.append(indent);
            out.append(text.substring_char(start, i));
            out.append("\n");
            proof {
                reveal_strlit("\n");
                let k: int = i - start;
                assert(line_end(line) == k);
                assert(line.take(k) =~= text@.subrange(start as int, i as int));
                assert(line.skip(k + 1) =~= text@.skip(i as int + 1));
                assert("\n"@ =~= seq!['\n']);
                assert(out@ =~= before + (indent@ + line.take(k) + seq!['\n']));
                assert(out@ + indent_lines(text@.skip(i as int + 1), indent@) =~= before
                    + indent_lines(line, indent@));
            }
            start = i + 1;
        }
        i = i + 1;
    }
    let ghost line: Seq<char> = text@.skip(start as int);
    let ghost before: Seq<char> = out@;
    if start < n {
        out.append(indent);
        out.append(text.substring_char(start, n));
        out.append("\n");
        proof {
            reveal_strlit("\n");
            let k: int = n - start;
            assert(line_end(line) == k);
            assert(line.take(k) =~= text@.subrange(start as int, n as int));
            assert("\n"@ =~= seq!['\n']);
            assert(out@ =~= before + (indent@ + line.take(k) + seq!['\n']));
            assert(out@ =~= before + indent_lines(line, indent@));
        }
    } else {
        proof {
            assert(before + indent_lines(line, indent@) =~= before);
        }
    }
}

/// Computes `profile_help`.
pub fn get_profile_help_section() -> (help_text: String)
    ensures
        help_text@ == profile_help(),
{
    let mut help_text: String = String::from_str("EPP Profiles Explanations:\n");
    let variants: Vec<EppValue> = EppValue::value_variants();
    let mut i: usize = 0;
    proof {
        assert(variants@.take(0) =~= Seq::<EppValue>::empty());
    }
    while i < variants.len()
        invariant
            i <= variants@.len(),
            help_text@ == help_section(variants@.take(i as int)),
        decreases variants.len() - i,
    {
        let variant: EppValue = variants[i];
        let ghost before: Seq<char> = help_text@;
        help_text.append("- ");
        help_text.append(variant.as_str());
        help_text.append("\n");
        push_indented(&mut help_text, variant.description(), "  ");
        proof {
            reveal_strlit("\n");
            assert("\n"@ =~= seq!['\n']);
            assert(help_text@ =~= before + help_entry(variant));
            assert(variants@.take(i as int + 1).drop_last() =~= variants@.take(i as int));
            assert(variants@.take(i as int + 1).last() == variant);
        }
        i = i + 1;
    }
    proof {
        assert(variants@.take(i as int) =~= variants@);
    }
    help_text
}

} // verus!
