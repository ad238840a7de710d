//! What a walk puts out: lines of a tree, and the text and colour of each.

use vstd::prelude::*;

verus! {

/// The glyph in front of a child: the last child of a directory gets the
/// terminal one, every other child the branch.
#[derive(Clone, Copy, Debug, PartialEq, Eq, Structural)]
pub enum Connector {
    Branch,
    Terminal,
}

impl Connector {
    /// The glyph that is drawn in front of the child.
    pub open spec fn glyph(self) -> Seq<char> {
        match self {
            Connector::Branch => "├── "@,
            Connector::Terminal => "└── "@,
        }
    }

    /// What the child's own children get in front of them for this level: a
    /// bar while siblings follow, blanks below the last child.
    pub open spec fn trail(self) -> Seq<char> {
        match self {
            Connector::Branch => "│   "@,
            Connector::Terminal => "    "@,
        }
    }

    /// The connector of child `index` among `count` children.
    pub open spec fn at(index: int, count: int) -> Connector {
        if index + 1 == count {
            Connector::Terminal
        } else {
            Connector::Branch
        }
    }

    /// The glyph that is drawn in front of the child.
    pub fn glyph_str(self) -> (s: &'static str)
        ensures
            s@ == self.glyph(),
    {
        match self {
            Connector::Branch => "├── ",
            Connector::Terminal => "└── ",
        }
    }

    /// What the child's own children get in front of them for this level.
    pub fn trail_str(self) -> (s: &'static str)
        ensures
            s@ == self.trail(),
    {
        match self {
            Connector::Branch => "│   ",
            Connector::Terminal => "    ",
        }
    }
}

/// A foreground colour.
#[derive(Clone, Copy, Debug, PartialEq, Eq, Structural)]
pub enum Tint {
    Cyan,
    Magenta,
}

/// One command to the sink that shows the tree.
#[derive(Debug, PartialEq, Eq)]
pub enum SinkOp {
    /// Go back to the default styling.
    Reset,
    /// Write text in the styling that is in force.
    Plain(String),
    /// Switch to a foreground colour, then write text.
    Colored(Tint, String),
}

/// A sink command as plain values.
pub enum SinkOpView {
    Reset,
    Plain(Seq<char>),
    Colored(Tint, Seq<char>),
}

impl View for SinkOp {
    type V = SinkOpView;

    open spec fn view(&self) -> SinkOpView {
        match self {
            SinkOp::Reset => SinkOpView::Reset,
            SinkOp::Plain(text) => SinkOpView::Plain(text@),
            SinkOp::Colored(tint, text) => SinkOpView::Colored(*tint, text@),
        }
    }
}

impl DeepView for SinkOp {
    type V = SinkOpView;

    open spec fn deep_view(&self) -> SinkOpView {
        self@
    }
}

/// One piece of the tree as a walk decides it, before it becomes text.
#[derive(Debug, PartialEq, Eq)]
pub enum Line {
    /// The styling goes back to default.
    Reset,
    /// The current line ends.
    Break,
    /// A directory stays closed because it has `count` children, more than
    /// the limit allows. Ends the current line.
    Notice { count: usize },
    /// A child of a directory. A file's label ends its line; a directory's
    /// does not, since what follows depends on what the directory holds.
    Label { prefix: String, connector: Connector, text: String, is_dir: bool, hidden: bool },
}

/// A line as plain values.
pub enum LineView {
    Reset,
    Break,
    Notice { count: nat },
    Label { prefix: Seq<char>, connector: Connector, text: Seq<char>, is_dir: bool, hidden: bool },
}

impl View for Line {
    type V = LineView;

    open spec fn view(&self) -> LineView {
        match self {
            Line::Reset => LineView::Reset,
            Line::Break => LineView::Break,
            Line::Notice { count } => LineView::Notice { count: *count as nat },
            Line::Label { prefix, connector, text, is_dir, hidden } => LineView::Label {
                prefix: prefix@,
                connector: *connector,
                text: text@,
                is_dir: *is_dir,
                hidden: *hidden,
            },
        }
    }
}

impl DeepView for Line {
    type V = LineView;

    open spec fn deep_view(&self) -> LineView {
        self@
    }
}

/// The character of a decimal digit.
pub open spec fn digit_char(d: nat) -> char {
    if d == 0 {
        '0'
    } else if d == 1 {
        '1'
    } else if d == 2 {
        '2'
    } else if d == 3 {
        '3'
    } else if d == 4 {
        '4'
    } else if d == 5 {
        '5'
    } else if d == 6 {
        '6'
    } else if d == 7 {
        '7'
    } else if d == 8 {
        '8'
    } else {
        '9'
    }
}

/// A number written in decimal, without leading zeros.
pub open spec fn decimal_text(n: nat) -> Seq<char>
    decreases n,
{
    if n < 10 {
        seq![digit_char(n)]
    } else {
        decimal_text(n / 10).push(digit_char(n % 10))
    }
}

/// The text that stands for a directory that is not opened.
pub open spec fn notice_text(count: nat) -> Seq<char> {
    " ["@ + decimal_text(count) + " entries exceeds filelimit, not opening dir]\n"@
}

/// The sink commands that show `line`.
///
/// A directory's name is cyan; a file's name is magenta if it is hidden and
/// plain otherwise, and the styling is reset after it.
pub open spec fn paint(line: LineView) -> Seq<SinkOpView> {
    match line {
        LineView::Reset => seq![SinkOpView::Reset],
        LineView::Break => seq![SinkOpView::Plain("\n"@)],
        LineView::Notice { count } => seq![SinkOpView::Plain(notice_text(count))],
        LineView::Label { prefix, connector, text, is_dir, hidden } => {
            let lead = SinkOpView::Plain(prefix + connector.glyph());
            if is_dir {
                seq![lead, SinkOpView::Colored(Tint::Cyan, text)]
            } else if hidden {
                seq![lead, SinkOpView::Colored(Tint::Magenta, text + "\n"@), SinkOpView::Reset]
            } else {
                seq![lead, SinkOpView::Plain(text + "\n"@), SinkOpView::Reset]
            }
        },
    }
}

/// The text of one decimal digit.
fn digit_str(d: usize) -> (s: &'static str)
    requires
        d < 10,
    ensures
        s@ == seq![digit_char(d as nat)],
{
    proof {
        reveal_strlit("0");
        reveal_strlit("1");
        reveal_strlit("2");
        reveal_strlit("3");
        reveal_strlit("4");
        reveal_strlit("5");
        reveal_strlit("6");
        reveal_strlit("7");
        reveal_strlit("8");
        reveal_strlit("9");
    }
    let s = if d == 0 {
        "0"
    } else if d == 1 {
        "1"
    } else if d == 2 {
        "2"
    } else if d == 3 {
        "3"
    } else if d == 4 {
        "4"
    } else if d == 5 {
        "5"
    } else if d == 6 {
        "6"
    } else if d == 7 {
        "7"
    } else if d == 8 {
        "8"
    } else {
        "9"
    };
    assert(s@ =~= seq![digit_char(d as nat)]);
    s
}

/// Writes `n` in decimal.
pub fn decimal(n: usize) -> (s: String)
    ensures
        s@ == decimal_text(n as nat),
    decreases n,
{
    if n < 10 {
        String::from_str(digit_str(n))
    } else {
        let mut s = decimal(n / 10);
        s.append(digit_str(n % 10));
        assert(s@ =~= decimal_text(n as nat / 10).push(digit_char(n as nat % 10)));
        s
    }
}

/// Joins two texts into a new one.
pub fn join(head: &str, tail: &str) -> (s: String)
    ensures
        s@ == head@ + tail@,
{
    let mut s = String::from_str(head);
    s.append(tail);
    s
}

impl Line {
    /// Gives the sink commands that show this line.
    pub fn paint(&self) -> (ops: Vec<SinkOp>)
        ensures
            ops.deep_view() == paint(self@),
    {
        let mut ops: Vec<SinkOp> = Vec::new();
        match self {
            Line::Reset => {
                ops.push(SinkOp::Reset);
            },
            Line::Break => {
                ops.push(SinkOp::Plain(String::from_str("\n")));
            },
            Line::Notice { count } => {
                let mut text = join(" [", decimal(*count).as_str());
                text.append(" entries exceeds filelimit, not opening dir]\n");
                ops.push(SinkOp::Plain(text));
            },
            Line::Label { prefix, connector, text, is_dir, hidden } => {
                ops.push(SinkOp::Plain(join(prefix.as_str(), connector.glyph_str())));
                if *is_dir {
                    ops.push(SinkOp::Colored(Tint::Cyan, text.clone()));
                } else if *hidden {
                    ops.push(SinkOp::Colored(Tint::Magenta, join(text.as_str(), "\n")));
                    ops.push(SinkOp::Reset);
                } else {
                    ops.push(SinkOp::Plain(join(text.as_str(), "\n")));
                    ops.push(SinkOp::Reset);
                }
            },
        }
        assert(ops.deep_view() =~= paint(self@));
        ops
    }
}

} // verus!
