//! The pager: a state machine over a viewport into the immutable result
//! buffer. Navigation commands move and clamp the viewport offset; the
//! renderer lays out one full frame (header, separator, visible body lines,
//! footer) for each state.

use crate::config::Config;
use crate::engine::paint_ok;
use crate::text::dec_str;
use crate::text::usize_to_string;
use colored::Colorize;
use vstd::prelude::*;

verus! {

/// One navigation input, already decoded from the terminal event. `Other`
/// stands for any key the pager ignores.
#[derive(Clone, Copy, Debug)]
pub enum PagerCommand {
    Up,
    Down,
    PageUp,
    PageDown,
    Home,
    End,
    Quit,
    Other,
}

/// The pager's mutable state: the index of the first visible result, the
/// viewport height in rows, and the (fixed) number of results.
#[derive(Clone, Copy, PartialEq, Eq, Structural, Debug)]
pub struct PagerState {
    pub offset: usize,
    pub page_height: usize,
    pub total: usize,
}

/// The largest viewport offset that still shows a full page (zero when
/// everything fits on one page).
pub open spec fn max_offset(total: int, page_height: int) -> int {
    if total >= page_height {
        total - page_height
    } else {
        0
    }
}

impl PagerState {
    /// The clamp invariant: the offset never passes the last page.
    pub open spec fn wf(self) -> bool {
        self.offset <= max_offset(self.total as int, self.page_height as int)
    }

    /// Exactly how one command moves the viewport: up and down by one row,
    /// page moves by one page height, home and end to the extremes, each
    /// clamped; quit and unknown keys leave it alone.
    pub open spec fn step_spec(self, c: PagerCommand) -> PagerState {
        match c {
            PagerCommand::Up => {
                if self.offset > 0 {
                    PagerState { offset: (self.offset - 1) as usize, ..self }
                } else {
                    self
                }
            },
            PagerCommand::Down => {
                if self.offset + self.page_height < self.total {
                    PagerState { offset: (self.offset + 1) as usize, ..self }
                } else {
                    self
                }
            },
            PagerCommand::PageUp => {
                if self.offset >= self.page_height {
                    PagerState { offset: (self.offset - self.page_height) as usize, ..self }
                } else {
                    PagerState { offset: 0, ..self }
                }
            },
            PagerCommand::PageDown => {
                let mo = max_offset(self.total as int, self.page_height as int);
                if self.offset + self.page_height <= mo {
                    PagerState { offset: (self.offset + self.page_height) as usize, ..self }
                } else {
                    PagerState { offset: mo as usize, ..self }
                }
            },
            PagerCommand::Home => PagerState { offset: 0, ..self },
            PagerCommand::End => {
                PagerState {
                    offset: max_offset(self.total as int, self.page_height as int) as usize,
                    ..self
                }
            },
            PagerCommand::Quit => self,
            PagerCommand::Other => self,
        }
    }

    /// A fresh pager over `total` results starts at the top.
    pub fn new(total: usize, page_height: usize) -> (s: Self)
        ensures
            s == (PagerState { offset: 0, page_height, total }),
            s.wf(),
    {
        PagerState { offset: 0, page_height, total }
    }

    /// Moves the viewport by one command, clamping at both ends.
    pub fn apply(&mut self, c: PagerCommand)
        requires
            old(self).wf(),
        ensures
            *final(self) == old(self).step_spec(c),
            final(self).wf(),
    {
        match c {
            PagerCommand::Up => {
                if self.offset > 0 {
                    self.offset = self.offset - 1;
                }
            },
            PagerCommand::Down => {
                if self.page_height < self.total && self.offset < self.total - self.page_height {
                    self.offset = self.offset + 1;
                }
            },
            PagerCommand::PageUp => {
                if self.offset >= self.page_height {
                    self.offset = self.offset - self.page_height;
                } else {
                    self.offset = 0;
                }
            },
            PagerCommand::PageDown => {
                let mo: usize = if self.total >= self.page_height {
                    self.total - self.page_height
                } else {
                    0
                };
                if mo - self.offset >= self.page_height {
                    self.offset = self.offset + self.page_height;
                } else {
                    self.offset = mo;
                }
            },
            PagerCommand::Home => {
                self.offset = 0;
            },
            PagerCommand::End => {
                self.offset = if self.total >= self.page_height {
                    self.total - self.page_height
                } else {
                    0
                };
            },
            PagerCommand::Quit => {},
            PagerCommand::Other => {},
        }
    }

    /// Whether this command ends the pager.
    pub fn is_exit(c: PagerCommand) -> (r: bool)
        ensures
            r == (c is Quit),
    {
        match c {
            PagerCommand::Quit => true,
            _ => false,
        }
    }
}

/// The state after a whole sequence of commands, applied in order.
pub open spec fn run_cmds(s: PagerState, cmds: Seq<PagerCommand>) -> PagerState
    decreases cmds.len(),
{
    if cmds.len() == 0 {
        s
    } else {
        run_cmds(s.step_spec(cmds.first()), cmds.drop_first())
    }
}

/// One command keeps the clamp invariant.
pub proof fn lemma_step_wf(s: PagerState, c: PagerCommand)
    requires
        s.wf(),
    ensures
        s.step_spec(c).wf(),
{
}

/// After any finite sequence of navigation commands from a well-formed
/// state, the viewport offset still lies between 0 and
/// max(0, total − page_height) inclusive.
pub proof fn lemma_pager_clamp(s: PagerState, cmds: Seq<PagerCommand>)
    requires
        s.wf(),
    ensures
        run_cmds(s, cmds).wf(),
    decreases cmds.len(),
{
    if cmds.len() > 0 {
        lemma_step_wf(s, cmds.first());
        lemma_pager_clamp(s.step_spec(cmds.first()), cmds.drop_first());
    }
}

/// The viewport height for a terminal of `rows` rows: everything below the
/// two header rows and the footer row.
pub fn page_height_for(rows: u16) -> (r: usize)
    ensures
        r == (if rows >= 3 {
            rows - 3
        } else {
            0
        }),
{
    if rows >= 3 {
        (rows - 3) as usize
    } else {
        0
    }
}

/// One fully laid-out frame: the help header, a separator as wide as the
/// terminal, the visible result lines, and the pagination footer.
pub struct Frame {
    pub header: String,
    pub separator: String,
    pub body: Vec<String>,
    pub footer: String,
}

/// The fixed help line shown at the top of every frame.
pub open spec fn header_chars() -> Seq<char> {
    "↑/↓: Scroll | Space: Page Down | Home/End: Jump | ESC/Ctrl+C: Exit"@
}

/// `n` spaces.
pub open spec fn spaces(n: int) -> Seq<char> {
    Seq::new(n as nat, |i: int| ' ')
}

/// A decimal rendering right-aligned to at least three columns.
pub open spec fn pad3(d: Seq<char>) -> Seq<char> {
    if d.len() >= 3 {
        d
    } else {
        spaces(3 - d.len()) + d
    }
}

/// The line-number badge for 1-based line number `n`.
pub open spec fn badge_chars(n: int) -> Seq<char> {
    "| "@ + pad3(dec_str(n as nat)) + " |"@
}

/// What holds of one rendered body line: the result line as it is, behind
/// an emphasised line-number badge and a space when line numbers are on.
pub open spec fn body_line_ok(line: Seq<char>, idx: int, line_number: bool, out: Seq<char>) -> bool {
    if line_number {
        exists|painted: Seq<char>|
            out == painted + seq![' '] + line && paint_ok(badge_chars(idx + 1), painted)
    } else {
        out == line
    }
}

/// How many results the viewport shows: a full page, or what remains.
pub open spec fn visible_count(offset: int, page_height: int, total: int) -> int {
    if total - offset <= page_height {
        total - offset
    } else {
        page_height
    }
}

/// The footer text: current page and page count (guarding a zero page
/// height by counting in single rows then), and the 1-based inclusive range
/// of the visible entries.
pub open spec fn footer_chars(offset: int, page_height: int, total: int) -> Seq<char> {
    let d = if page_height == 0 {
        1int
    } else {
        page_height
    };
    let page = offset / d + 1;
    let total_pages = total / d + (if total % d == 0 {
        0int
    } else {
        1int
    });
    let last = if offset + page_height <= total {
        offset + page_height
    } else {
        total
    };
    "Page: "@ + dec_str(page as nat) + "/"@ + dec_str(total_pages as nat) + " | Showing lines "@
        + dec_str((offset + 1) as nat) + "-"@ + dec_str(last as nat) + " of "@ + dec_str(
        total as nat,
    )
}

/// Relies on `colored::Colorize::black` and `ColoredString`'s `Display`:
/// it writes a style escape prefix, the input unchanged, and a reset suffix
/// when colorization is enabled for the process, and the input alone
/// otherwise — except that an input already holding a reset sequence gets
/// further escapes spliced in after each one.
#[verifier::external_body]
fn paint_badge(s: &str) -> (r: String)
    ensures
        paint_ok(s@, r@),
{
    format!("{}", s.black())
}

/// Lays out one frame over the result buffer: the header, a full-width
/// separator, up to `page_height` result lines starting at `offset` (each
/// behind an emphasised right-aligned 1-based line-number badge when
/// `config.line_number` is set), and the pagination footer.
pub fn render_page(
    results: &Vec<String>,
    indexes: &Vec<usize>,
    config: &Config,
    offset: usize,
    page_height: usize,
    width: u16,
    total: usize,
) -> (r: Frame)
    requires
        total == results@.len(),
        indexes@.len() == results@.len(),
        offset <= total,
        total < usize::MAX,
        forall|k: int| 0 <= k < indexes@.len() ==> indexes@[k] < usize::MAX,
    ensures
        r.header@ == header_chars(),
        r.separator@ == Seq::new(width as nat, |i: int| '-'),
        r.body@.len() == visible_count(offset as int, page_height as int, total as int),
        forall|k: int|
            0 <= k < r.body@.len() ==> body_line_ok(
                results@[offset + k]@,
                indexes@[offset + k] as int,
                config.line_number,
                r.body@[k]@,
            ),
        r.footer@ == footer_chars(offset as int, page_height as int, total as int),
{
    proof {
        reveal_strlit(" ");
        reveal_strlit("-");
        reveal_strlit("  ");
        assert(" "@ =~= seq![' ']);
        assert("  "@ =~= spaces(2));
        assert("-"@ =~= seq!['-']);
    }
    let header = String::from_str(
        "↑/↓: Scroll | Space: Page Down | Home/End: Jump | ESC/Ctrl+C: Exit",
    );
    let mut separator = String::new();
    let mut j: usize = 0;
    let w: usize = width as usize;
    proof {
        assert(separator@ =~= Seq::new(0, |i: int| '-'));
    }
    while j < w
        invariant
            j <= w,
            separator@ == Seq::new(j as nat, |i: int| '-'),
        decreases w - j,
    {
        separator.append("-");
        proof {
            assert(separator@ =~= Seq::new((j + 1) as nat, |i: int| '-'));
        }
        j = j + 1;
    }
    let visible: usize = if total - offset <= page_height {
        total - offset
    } else {
        page_height
    };
    let mut body: Vec<String> = Vec::new();
    let mut k: usize = 0;
    while k < visible
        invariant
            k <= visible,
            visible as int == visible_count(offset as int, page_height as int, total as int),
            offset + visible <= total,
            total == results@.len(),
            indexes@.len() == results@.len(),
            forall|j2: int| 0 <= j2 < indexes@.len() ==> indexes@[j2] < usize::MAX,
            body@.len() == k,
            forall|j2: int|
                0 <= j2 < k ==> body_line_ok(
                    results@[offset + j2]@,
                    indexes@[offset + j2] as int,
                    config.line_number,
                    body@[j2]@,
                ),
        decreases visible - k,
    {
        let entry: &String = &results[offset + k];
        if config.line_number {
            let num = usize_to_string(indexes[offset + k] + 1);
            let nl: usize = num.as_str().unicode_len();
            let mut badge = String::from_str("| ");
            if nl == 1 {
                badge.append("  ");
            } else if nl == 2 {
                badge.append(" ");
            }
            badge.append(num.as_str());
            badge.append(" |");
            proof {
                let d = dec_str((indexes@[offset + k] + 1) as nat);
                if nl == 1 {
                    assert(spaces(3 - d.len()) =~= spaces(2));
                } else if nl == 2 {
                    assert(spaces(3 - d.len()) =~= seq![' ']);
                }
                assert(badge@ == badge_chars(indexes@[offset + k] + 1));
            }
            let painted = paint_badge(badge.as_str());
            let out = painted.concat(" ").concat(entry.as_str());
            proof {
                assert(out@ == painted@ + seq![' '] + entry@);
            }
            body.push(out);
        } else {
            body.push(entry.clone());
        }
        k = k + 1;
    }
    let d: usize = if page_height == 0 {
        1
    } else {
        page_height
    };
    let page = offset / d + 1;
    let total_pages = total / d + (if total % d == 0 {
        0
    } else {
        1
    });
    let last: usize = if total - offset >= page_height {
        offset + page_height
    } else {
        total
    };
    let mut footer = String::from_str("Page: ");
    let s_page = usize_to_string(page);
    footer.append(s_page.as_str());
    footer.append("/");
    let s_tp = usize_to_string(total_pages);
    footer.append(s_tp.as_str());
    footer.append(" | Showing lines ");
    let s_first = usize_to_string(offset + 1);
    footer.append(s_first.as_str());
    footer.append("-");
    let s_last = usize_to_string(last);
    footer.append(s_last.as_str());
    footer.append(" of ");
    let s_total = usize_to_string(total);
    footer.append(s_total.as_str());
    Frame { header, separator, body, footer }
}

} // verus!
