use crate::communication::position::lemma_stepped_str_snoc;
use crate::communication::{Error, SpecError};
use crate::eureka::chars::Chars;
use crate::language::chars::push_char;
use vstd::prelude::*;

verus! {

/// How a padding scan over a text ends: the loop breaks after `used`
/// characters at nesting depth `level`, or the depth bound is exceeded after
/// `used` characters.
pub enum PadScan {
    Break { used: nat, level: nat },
    Overflow { used: nat },
}

/// Adds already-consumed characters in front of a scan's count.
pub open spec fn pad_bump(r: PadScan, n: nat) -> PadScan {
    match r {
        PadScan::Break { used, level } => PadScan::Break { used: used + n, level },
        PadScan::Overflow { used } => PadScan::Overflow { used: used + n },
    }
}

/// The padding scan: starting at nesting depth `level`, whitespace always
/// continues the run; `/*` opens a nested block comment (up to 255 levels);
/// `*/` closes one; inside a comment every printable character continues the
/// run. The scan breaks at the first character that does none of these.
pub open spec fn pad_scan(s: Seq<char>, level: nat) -> PadScan
    decreases s.len(),
{
    if s.len() >= 1 && (s[0] == ' ' || s[0] == '\n') {
        pad_bump(pad_scan(s.drop_first(), level), 1)
    } else if s.len() >= 2 && s[0] == '/' && s[1] == '*' {
        if level >= 255 {
            PadScan::Overflow { used: 0 }
        } else {
            pad_bump(pad_scan(s.skip(2), level + 1), 2)
        }
    } else if s.len() >= 2 && s[0] == '*' && s[1] == '/' && level > 0 {
        pad_bump(pad_scan(s.skip(2), (level - 1) as nat), 2)
    } else if s.len() >= 1 && level > 0 && '!' <= s[0] && s[0] <= '~' {
        pad_bump(pad_scan(s.drop_first(), level), 1)
    } else {
        PadScan::Break { used: 0, level }
    }
}

/// The invariant of a padding's text: non-empty, and a padding scan from
/// depth zero consumes all of it and ends back at depth zero.
pub open spec fn padding_wf(s: Seq<char>) -> bool {
    s.len() > 0 && pad_scan(s, 0) == (PadScan::Break { used: s.len(), level: 0 as nat })
}

/// A maximal run of whitespace and block comments: formatting-irrelevant text
/// preserved for lossless reconstruction. Always non-empty. Only well-formed
/// runs can exist behind this type.
#[derive(Debug, Eq, Hash)]
pub struct Padding {
    value: String,
}

impl View for Padding {
    type V = Seq<char>;

    closed spec fn view(&self) -> Seq<char> {
        self.value@
    }
}

impl PartialEq for Padding {
    fn eq(&self, other: &Padding) -> (r: bool) {
        self.value == other.value
    }
}

impl vstd::std_specs::cmp::PartialEqSpecImpl for Padding {
    open spec fn obeys_eq_spec() -> bool {
        true
    }

    open spec fn eq_spec(&self, other: &Padding) -> bool {
        self@ == other@
    }
}

impl Clone for Padding {
    fn clone(&self) -> (r: Self)
        ensures
            r@ == self@,
    {
        Padding { value: self.value.clone() }
    }
}

impl crate::miscellaneous::DisplayName for Padding {
    open spec fn spec_display_name() -> Seq<char> {
        "padding"@
    }

    fn display_name() -> (r: &'static str) {
        "padding"
    }
}

impl Padding {
    /// Consumes the maximal padding run from the stream. Reports no padding
    /// (not an error) where no character qualifies; fails where a block
    /// comment is left unterminated or nested past the depth bound, leaving
    /// the stream at the exact point of failure.
    pub fn lex(chars: &mut Chars) -> (r: Result<Option<Padding>, Error>)
        requires
            old(chars).wf(),
        ensures
            final(chars).wf(),
            match pad_scan(old(chars).text(), 0) {
                PadScan::Break { used, level } => {
                    &&& final(chars).text() == old(chars).text().skip(used as int)
                    &&& final(chars).advanced_over(*old(chars), old(chars).text().take(used as int))
                    &&& if level > 0 {
                        r matches Err(e) && e@ == SpecError::Expected("*/"@)
                    } else if used == 0 {
                        r == Ok::<Option<Padding>, Error>(None) && *final(chars) == *old(chars)
                    } else {
                        r matches Ok(op) && op matches Some(p) && p@ == old(chars).text().take(
                            used as int,
                        ) && padding_wf(p@)
                    }
                },
                PadScan::Overflow { used } => {
                    &&& final(chars).text() == old(chars).text().skip(used as int)
                    &&& final(chars).advanced_over(*old(chars), old(chars).text().take(used as int))
                    &&& r matches Err(e) && e@ == SpecError::ExceededMaximumNestingLevel
                },
            },
    {
        let ghost s0 = old(chars).text();
        let ghost l0 = old(chars).spec_position().spec_line() as int;
        let ghost c0 = old(chars).spec_position().spec_column() as int;
        let mut value = String::new();
        let mut level: u8 = 0;
        let ghost mut j: int = 0;
        proof {
            assert(s0.take(0) =~= Seq::<char>::empty());
            assert(s0.skip(0) =~= s0);
        }
        loop
            invariant
                chars.wf(),
                0 <= j <= s0.len(),
                s0 == old(chars).text(),
                l0 == old(chars).spec_position().spec_line() as int,
                c0 == old(chars).spec_position().spec_column() as int,
                chars.text() == s0.skip(j),
                value@ == s0.take(j),
                chars.advanced_over(*old(chars), s0.take(j)),
                j == 0 ==> *chars == *old(chars),
                pad_scan(s0, 0) == pad_bump(pad_scan(s0.skip(j), level as nat), j as nat),
            ensures
                chars.wf(),
                0 <= j <= s0.len(),
                chars.text() == s0.skip(j),
                value@ == s0.take(j),
                chars.advanced_over(*old(chars), s0.take(j)),
                j == 0 ==> *chars == *old(chars),
                pad_scan(s0, 0) == (PadScan::Break { used: j as nat, level: level as nat }),
            decreases s0.len() - j,
        {
            let c1 = chars.peek();
            let c2 = chars.peek2();
            let c2_star = match c2 {
                Some('*') => true,
                _ => false,
            };
            let c2_slash = match c2 {
                Some('/') => true,
                _ => false,
            };
            proof {
                if j < s0.len() {
                    assert(s0.skip(j)[0] == s0[j]);
                }
                if j + 1 < s0.len() {
                    assert(s0.skip(j)[1] == s0[j + 1]);
                }
            }
            match c1 {
                Some(' ') | Some('\n') => {
                    let c = chars.pop().unwrap();
                    push_char(&mut value, c);
                    proof {
                        assert(s0.skip(j).drop_first() =~= s0.skip(j + 1));
                        lemma_pad_bump_add(pad_scan(s0.skip(j + 1), level as nat), 1, j as nat);
                        lemma_stepped_str_snoc(l0, c0, s0, j);
                        j = j + 1;
                        assert(value@ =~= s0.take(j));
                    }
                },
                Some('/') if c2_star => {
                    if level == 255 {
                        proof {
                            assert(pad_scan(s0.skip(j), level as nat) == (PadScan::Overflow {
                                used: 0 as nat,
                            }));
                        }
                        return Err(Error::ExceededMaximumNestingLevel);
                    }
                    level += 1;
                    let ca = chars.pop().unwrap();
                    push_char(&mut value, ca);
                    proof {
                        lemma_stepped_str_snoc(l0, c0, s0, j);
                    }
                    let cb = chars.pop().unwrap();
                    push_char(&mut value, cb);
                    proof {
                        assert(s0.skip(j).skip(2) =~= s0.skip(j + 2));
                        lemma_pad_bump_add(pad_scan(s0.skip(j + 2), level as nat), 2, j as nat);
                        lemma_stepped_str_snoc(l0, c0, s0, j + 1);
                        j = j + 2;
                        assert(value@ =~= s0.take(j));
                        assert(chars.text() =~= s0.skip(j));
                    }
                },
                Some('*') if c2_slash && level > 0 => {
                    level -= 1;
                    let ca = chars.pop().unwrap();
                    push_char(&mut value, ca);
                    proof {
                        lemma_stepped_str_snoc(l0, c0, s0, j);
                    }
                    let cb = chars.pop().unwrap();
                    push_char(&mut value, cb);
                    proof {
                        assert(s0.skip(j).skip(2) =~= s0.skip(j + 2));
                        lemma_pad_bump_add(pad_scan(s0.skip(j + 2), level as nat), 2, j as nat);
                        lemma_stepped_str_snoc(l0, c0, s0, j + 1);
                        j = j + 2;
                        assert(value@ =~= s0.take(j));
                        assert(chars.text() =~= s0.skip(j));
                    }
                },
                Some(c) if '!' <= c && c <= '~' && level > 0 => {
                    let c = chars.pop().unwrap();
                    push_char(&mut value, c);
                    proof {
                        assert(s0.skip(j).drop_first() =~= s0.skip(j + 1));
                        lemma_pad_bump_add(pad_scan(s0.skip(j + 1), level as nat), 1, j as nat);
                        lemma_stepped_str_snoc(l0, c0, s0, j);
                        j = j + 1;
                        assert(value@ =~= s0.take(j));
                    }
                },
                _ => {
                    proof {
                        assert(pad_scan(s0.skip(j), level as nat) == (PadScan::Break {
                            used: 0 as nat,
                            level: level as nat,
                        }));
                    }
                    break ;
                },
            }
        }
        if level > 0 {
            Err(Error::Expected("*/"))
        } else if value.as_str().is_empty() {
            Ok(None)
        } else {
            proof {
                lemma_pad_scan_used_bound(s0, 0);
                lemma_pad_scan_prefix(s0, 0, j as nat, 0);
            }
            Ok(Some(Padding { value }))
        }
    }

    /// The exact source text this padding was lexed from.
    pub fn unlex(&self) -> (r: &str)
        ensures
            r@ == self@,
    {
        self.value.as_str()
    }

    /// Builds a padding from its exact text, which must be a whole,
    /// well-formed padding run.
    pub fn new(value: &str) -> (r: Padding)
        requires
            padding_wf(value@),
        ensures
            r@ == value@,
    {
        Padding { value: value.to_owned() }
    }
}

/// Bump counts add up.
proof fn lemma_pad_bump_add(r: PadScan, a: nat, b: nat)
    ensures
        pad_bump(pad_bump(r, a), b) == pad_bump(r, a + b),
{
}

/// A scan never counts more characters than the text holds.
pub proof fn lemma_pad_scan_used_bound(s: Seq<char>, level: nat)
    ensures
        pad_scan(s, level) matches PadScan::Break { used, .. } ==> used <= s.len(),
        pad_scan(s, level) matches PadScan::Overflow { used } ==> used <= s.len(),
    decreases s.len(),
{
    if s.len() >= 1 && (s[0] == ' ' || s[0] == '\n') {
        lemma_pad_scan_used_bound(s.drop_first(), level);
    } else if s.len() >= 2 && s[0] == '/' && s[1] == '*' {
        if level < 255 {
            lemma_pad_scan_used_bound(s.skip(2), level + 1);
        }
    } else if s.len() >= 2 && s[0] == '*' && s[1] == '/' && level > 0 {
        lemma_pad_scan_used_bound(s.skip(2), (level - 1) as nat);
    } else if s.len() >= 1 && level > 0 && '!' <= s[0] && s[0] <= '~' {
        lemma_pad_scan_used_bound(s.drop_first(), level);
    }
}

/// A padding run is maximal: after the characters a scan consumed, a fresh
/// scan at the depth the first one ended with consumes nothing more.
pub proof fn lemma_pad_scan_maximal(s: Seq<char>, level: nat, used: nat, l: nat)
    requires
        used <= s.len(),
        pad_scan(s, level) == (PadScan::Break { used, level: l }),
    ensures
        pad_scan(s.skip(used as int), l) == (PadScan::Break { used: 0 as nat, level: l }),
    decreases s.len(),
{
    if s.len() >= 1 && (s[0] == ' ' || s[0] == '\n') {
        assert(used >= 1);
        assert(s.drop_first().skip(used - 1) =~= s.skip(used as int));
        lemma_pad_scan_maximal(s.drop_first(), level, (used - 1) as nat, l);
    } else if s.len() >= 2 && s[0] == '/' && s[1] == '*' {
        assert(level < 255);
        assert(used >= 2);
        assert(s.skip(2).skip(used - 2) =~= s.skip(used as int));
        lemma_pad_scan_maximal(s.skip(2), level + 1, (used - 2) as nat, l);
    } else if s.len() >= 2 && s[0] == '*' && s[1] == '/' && level > 0 {
        assert(used >= 2);
        assert(s.skip(2).skip(used - 2) =~= s.skip(used as int));
        lemma_pad_scan_maximal(s.skip(2), (level - 1) as nat, (used - 2) as nat, l);
    } else if s.len() >= 1 && level > 0 && '!' <= s[0] && s[0] <= '~' {
        assert(used >= 1);
        assert(s.drop_first().skip(used - 1) =~= s.skip(used as int));
        lemma_pad_scan_maximal(s.drop_first(), level, (used - 1) as nat, l);
    } else {
        assert(used == 0);
        assert(s.skip(0) =~= s);
    }
}

/// A scan that breaks after `used` characters gives the same answer on just
/// those characters: the consumed prefix is itself a whole run ending at the
/// same depth.
pub proof fn lemma_pad_scan_prefix(s: Seq<char>, level: nat, used: nat, l: nat)
    requires
        used <= s.len(),
        pad_scan(s, level) == (PadScan::Break { used, level: l }),
    ensures
        pad_scan(s.take(used as int), level) == (PadScan::Break { used, level: l }),
    decreases s.len(),
{
    let t = s.take(used as int);
    if s.len() >= 1 && (s[0] == ' ' || s[0] == '\n') {
        assert(used >= 1);
        assert(t[0] == s[0]);
        assert(s.drop_first().take(used - 1) =~= t.drop_first());
        lemma_pad_scan_prefix(s.drop_first(), level, (used - 1) as nat, l);
    } else if s.len() >= 2 && s[0] == '/' && s[1] == '*' {
        assert(level < 255);
        assert(used >= 2);
        assert(t[0] == s[0] && t[1] == s[1]);
        assert(s.skip(2).take(used - 2) =~= t.skip(2));
        lemma_pad_scan_prefix(s.skip(2), level + 1, (used - 2) as nat, l);
    } else if s.len() >= 2 && s[0] == '*' && s[1] == '/' && level > 0 {
        assert(used >= 2);
        assert(t[0] == s[0] && t[1] == s[1]);
        assert(s.skip(2).take(used - 2) =~= t.skip(2));
        lemma_pad_scan_prefix(s.skip(2), (level - 1) as nat, (used - 2) as nat, l);
    } else if s.len() >= 1 && level > 0 && '!' <= s[0] && s[0] <= '~' {
        assert(used >= 1);
        assert(t[0] == s[0]);
        assert(s.drop_first().take(used - 1) =~= t.drop_first());
        lemma_pad_scan_prefix(s.drop_first(), level, (used - 1) as nat, l);
    } else {
        assert(used == 0);
        assert(t =~= Seq::<char>::empty());
    }
}

} // verus!
