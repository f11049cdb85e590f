//! The text shown for each icon.

use crate::utils::Icon;
use vstd::prelude::*;

verus! {

/// The emoji for an icon.
pub open spec fn emoji_text(icon: Icon) -> Seq<char> {
    match icon {
            Icon::Success => "\u{2713}"@,
            Icon::Error => "\u{2717}"@,
            Icon::Warning => "\u{26a0}"@,
            Icon::Info => "\u{2139}"@,
            Icon::Arrow => "\u{2192}"@,
            Icon::Bullet => "\u{2022}"@,
            Icon::Check => "\u{2713}"@,
            Icon::Cross => "\u{2717}"@,
            Icon::Question => "?"@,
            Icon::Search => "\u{1f50d}"@,
            Icon::Folder => "\u{1f4c1}"@,
            Icon::File => "\u{1f4c4}"@,
            Icon::Lock => "\u{1f512}"@,
            Icon::Unlock => "\u{1f513}"@,
            Icon::Star => "\u{2b50}"@,
            Icon::Heart => "\u{2764}"@,
            Icon::Fire => "\u{1f525}"@,
            Icon::Lightning => "\u{26a1}"@,
            Icon::Sparkles => "\u{2728}"@,
            Icon::Rocket => "\u{1f680}"@,
    }
}

/// The plain-ASCII stand-in for an icon.
pub open spec fn ascii_text(icon: Icon) -> Seq<char> {
    match icon {
            Icon::Success => "[OK]"@,
            Icon::Error => "[X]"@,
            Icon::Warning => "[!]"@,
            Icon::Info => "[i]"@,
            Icon::Arrow => "->"@,
            Icon::Bullet => "*"@,
            Icon::Check => "[v]"@,
            Icon::Cross => "[x]"@,
            Icon::Question => "[?]"@,
            Icon::Search => "[S]"@,
            Icon::Folder => "[D]"@,
            Icon::File => "[F]"@,
            Icon::Lock => "[L]"@,
            Icon::Unlock => "[U]"@,
            Icon::Star => "[*]"@,
            Icon::Heart => "[<3]"@,
            Icon::Fire => "[!]"@,
            Icon::Lightning => "[!]"@,
            Icon::Sparkles => "[*]"@,
            Icon::Rocket => "[^]"@,
    }
}

fn emoji_string(icon: Icon) -> (r: String)
    ensures
        r@ == emoji_text(icon),
{
    match icon {
            Icon::Success => String::from_str("\u{2713}"),
            Icon::Error => String::from_str("\u{2717}"),
            Icon::Warning => String::from_str("\u{26a0}"),
            Icon::Info => String::from_str("\u{2139}"),
            Icon::Arrow => String::from_str("\u{2192}"),
            Icon::Bullet => String::from_str("\u{2022}"),
            Icon::Check => String::from_str("\u{2713}"),
            Icon::Cross => String::from_str("\u{2717}"),
            Icon::Question => String::from_str("?"),
            Icon::Search => String::from_str("\u{1f50d}"),
            Icon::Folder => String::from_str("\u{1f4c1}"),
            Icon::File => String::from_str("\u{1f4c4}"),
            Icon::Lock => String::from_str("\u{1f512}"),
            Icon::Unlock => String::from_str("\u{1f513}"),
            Icon::Star => String::from_str("\u{2b50}"),
            Icon::Heart => String::from_str("\u{2764}"),
            Icon::Fire => String::from_str("\u{1f525}"),
            Icon::Lightning => String::from_str("\u{26a1}"),
            Icon::Sparkles => String::from_str("\u{2728}"),
            Icon::Rocket => String::from_str("\u{1f680}"),
    }
}

fn ascii_string(icon: Icon) -> (r: String)
    ensures
        r@ == ascii_text(icon),
{
    match icon {
            Icon::Success => String::from_str("[OK]"),
            Icon::Error => String::from_str("[X]"),
            Icon::Warning => String::from_str("[!]"),
            Icon::Info => String::from_str("[i]"),
            Icon::Arrow => String::from_str("->"),
            Icon::Bullet => String::from_str("*"),
            Icon::Check => String::from_str("[v]"),
            Icon::Cross => String::from_str("[x]"),
            Icon::Question => String::from_str("[?]"),
            Icon::Search => String::from_str("[S]"),
            Icon::Folder => String::from_str("[D]"),
            Icon::File => String::from_str("[F]"),
            Icon::Lock => String::from_str("[L]"),
            Icon::Unlock => String::from_str("[U]"),
            Icon::Star => String::from_str("[*]"),
            Icon::Heart => String::from_str("[<3]"),
            Icon::Fire => String::from_str("[!]"),
            Icon::Lightning => String::from_str("[!]"),
            Icon::Sparkles => String::from_str("[*]"),
            Icon::Rocket => String::from_str("[^]"),
    }
}

/// The emoji for `icon` when `use_emojis` (which the caller sets only where
/// the terminal can show them), else its ASCII stand-in.
pub fn get(icon: Icon, use_emojis: bool) -> (r: String)
    ensures
        r@ == if use_emojis {
            emoji_text(icon)
        } else {
            ascii_text(icon)
        },
{
    if use_emojis {
        emoji_string(icon)
    } else {
        ascii_string(icon)
    }
}

} // verus!
