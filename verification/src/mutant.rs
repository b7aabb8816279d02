//! The operator catalog: which tokens can be mutated, and into what.

use crate::error::{Error, ErrorView};
use crate::file_manager::{has_line, invalid_line_message, replace_line, with_line};
use crate::text::{
    decimal, find_chars, first_occurrence, is_first_occurrence, lemma_first_occurrence,
    lemma_replaced_differs, lemma_replaced_two_occurrences, occurs, occurs_at, replace, replaced,
    to_chars, to_decimal,
};
use colored::Colorize;
use vstd::prelude::*;
use vstd::string::*;

verus! {

/// A token that can be mutated, or that a mutation can put in its place.
///
/// The symbols `>` and `<` carry a space on each side, and so do the boolean
/// connectives: the arrows `->` and `=>` and other longer symbols that share
/// a character with them are then never taken for a comparison.
#[derive(Debug, Clone, Copy, PartialEq, Eq, Structural)]
pub enum MutationType {
    Equal,
    NotEqual,
    GreaterThan,
    GreaterThanOrEqual,
    LessThan,
    LessThanOrEqual,
    Assert,
    AssertNot,
    IsZero,
    IsNonZero,
    And,
    Or,
}

/// One candidate: a line of a source file, the operator found on it, and the
/// operator that takes its place.
#[derive(Debug)]
pub struct Mutation {
    from: MutationType,
    to: MutationType,
    file_name: String,
    line: String,
    pos: usize,
}

/// What a `Mutation` stands for.
pub struct MutationView {
    /// The operator found on the line.
    pub from: MutationType,
    /// The operator that replaces it.
    pub to: MutationType,
    /// The path of the file, relative to the project root.
    pub file_name: Seq<char>,
    /// The line as it stands in the file, without its line ending.
    pub line: Seq<char>,
    /// The index of the line in the file, counted from zero.
    pub pos: nat,
}

impl View for Mutation {
    type V = MutationView;

    closed spec fn view(&self) -> MutationView {
        MutationView {
            from: self.from,
            to: self.to,
            file_name: self.file_name@,
            line: self.line@,
            pos: self.pos as nat,
        }
    }
}

/// The escape sequence that switches the terminal to blue.
pub open spec fn blue_on() -> Seq<char> {
    seq!['\u{1b}', '[', '3', '4', 'm']
}

/// The escape sequence that switches every style off.
pub open spec fn style_off() -> Seq<char> {
    seq!['\u{1b}', '[', '0', 'm']
}

/// Whether `shown` is one of the forms in which `text` can come out of the
/// painting: as it is; between the sequence that switches blue on and the
/// one that switches every style off; or followed by the switching off
/// alone.
pub open spec fn painted_blue(text: Seq<char>, shown: Seq<char>) -> bool {
    ||| shown == text
    ||| shown == blue_on() + text + style_off()
    ||| shown == text + style_off()
}

/// The arrow that stands before the place of a mutation.
pub open spec fn arrow() -> Seq<char> {
    seq!['-', '-', '>']
}

/// The bar that stands before the description of a mutation.
pub open spec fn bar() -> Seq<char> {
    seq![' ', '|']
}

/// The text in blue, for a terminal.
///
/// Trusted: the body is `colored::Colorize::blue` and the `Display` of the
/// `ColoredString` it gives. That `Display` asks more than once, while it
/// writes, whether colours are in use, and the answer comes from the
/// environment of the process and from an override that any thread may
/// switch at any time. So the contract names every outcome of a text that
/// does not itself hold `ESC[0m`: where the first answer is no, the text
/// comes back as it is; where every answer is yes, it stands between
/// `ESC[34m` and `ESC[0m`; where the first answer is yes and the one taken
/// for the opening sequence is no, the text comes back followed by `ESC[0m`
/// alone. Nothing is claimed of a text that holds `ESC[0m`: inside such a
/// text `colored` inserts further sequences.
#[verifier::external_body]
fn paint_blue(text: &str) -> (shown: String)
    ensures
        !occurs(text@, style_off()) ==> painted_blue(text@, shown@),
{
    text.blue().to_string()
}

/// The arrow and the bar as they are shown: in blue where the terminal takes
/// colours, plain where it does not. Each comes in one of the forms that
/// `painted_blue` names.
pub fn markers() -> (r: (String, String))
    ensures
        painted_blue(arrow(), r.0@),
        painted_blue(bar(), r.1@),
{
    proof {
        reveal_strlit("-->");
        reveal_strlit(" |");
    }
    assert("-->"@ =~= arrow());
    assert(" |"@ =~= bar());
    assert(!occurs(arrow(), style_off())) by {
        assert forall|i: int| !occurs_at(arrow(), style_off(), i) by {}
    }
    assert(!occurs(bar(), style_off())) by {
        assert forall|i: int| !occurs_at(bar(), style_off(), i) by {}
    }
    (paint_blue("-->"), paint_blue(" |"))
}

impl MutationView {
    /// The line after the mutation: every occurrence of the operator found
    /// on it replaced by the operator that takes its place.
    pub open spec fn mutated_line(self) -> Seq<char> {
        replaced(self.line, self.from.token(), self.to.token())
    }

    /// The two lines that describe the candidate to the user: the place, with
    /// the line counted from one, behind `arrow`; and the change behind `bar`.
    pub open spec fn rendered(self, arrow: Seq<char>, bar: Seq<char>) -> Seq<char> {
        arrow + " "@ + self.file_name + ":"@ + decimal(self.pos + 1) + "\n"@ + bar + " \""@
            + self.from.token() + "\" updated to \""@ + self.to.token() + "\"\n"@
    }
}

impl Mutation {
    /// The candidate that replaces `from` by `to` on line `pos` of `file_name`.
    pub fn new(from: MutationType, to: MutationType, file_name: String, line: String, pos: usize) -> (m:
        Mutation)
        ensures
            m@ == (MutationView { from, to, file_name: file_name@, line: line@, pos: pos as nat }),
    {
        Mutation { from, to, file_name, line, pos }
    }

    /// The operator found on the line.
    pub fn from(&self) -> (op: MutationType)
        ensures
            op == self@.from,
    {
        self.from
    }

    /// The operator that takes its place.
    pub fn to(&self) -> (op: MutationType)
        ensures
            op == self@.to,
    {
        self.to
    }

    /// The path of the file, relative to the project root.
    pub fn file_name(&self) -> (name: &String)
        ensures
            name@ == self@.file_name,
    {
        &self.file_name
    }

    /// The line as it stands in the file.
    pub fn line(&self) -> (line: &String)
        ensures
            line@ == self@.line,
    {
        &self.line
    }

    /// The index of the line in the file, counted from zero.
    pub fn pos(&self) -> (pos: usize)
        ensures
            pos == self@.pos,
    {
        self.pos
    }

    /// The two lines that describe the candidate, behind the markers given.
    pub fn render(&self, arrow: &str, bar: &str) -> (s: String)
        ensures
            s@ == self@.rendered(arrow@, bar@),
    {
        let number = to_decimal(self.pos as u128 + 1);
        let mut s = String::from_str(arrow);
        s.append(" ");
        s.append(self.file_name.as_str());
        s.append(":");
        s.append(number.as_str());
        s.append("\n");
        s.append(bar);
        s.append(" \"");
        s.append(self.from.as_str());
        s.append("\" updated to \"");
        s.append(self.to.as_str());
        s.append("\"\n");
        assert(s@ =~= self@.rendered(arrow@, bar@));
        s
    }

    /// The two lines that describe the candidate to the user, the markers in
    /// blue where the terminal takes colours.
    pub fn to_string(&self) -> (s: String)
        ensures
            exists|a: Seq<char>, b: Seq<char>|
                painted_blue(arrow(), a) && painted_blue(bar(), b) && s@ == #[trigger] self@.rendered(
                    a,
                    b,
                ),
    {
        let (a, b) = markers();
        let s = self.render(a.as_str(), b.as_str());
        assert(s@ == self@.rendered(a@, b@));
        s
    }

    /// The line after the mutation.
    pub fn mutated_line(&self) -> (s: String)
        ensures
            s@ == self@.mutated_line(),
    {
        replace(self.line.as_str(), self.from.as_str(), self.to.as_str())
    }

    /// The content of the mutant's file, given the content of the file as it
    /// stands in the project: the line of the candidate holds the mutated
    /// line, and nothing else differs.
    ///
    /// A file without that line is answered with an error.
    pub fn apply_mutation(&self, content: &str) -> (r: Result<String, Error>)
        ensures
            match r {
                Ok(out) => has_line(content@, self@.pos as int) && out@ == with_line(
                    content@,
                    self@.pos as int,
                    self@.mutated_line(),
                ),
                Err(e) => !has_line(content@, self@.pos as int) && e@ == ErrorView::Io(
                    invalid_line_message(),
                ),
            },
    {
        let new_line = self.mutated_line();
        replace_line(content, self.pos, new_line.as_str())
    }
}

impl Clone for Mutation {
    fn clone(&self) -> (m: Mutation)
        ensures
            m@ == self@,
    {
        Mutation {
            from: self.from,
            to: self.to,
            file_name: self.file_name.clone(),
            line: self.line.clone(),
            pos: self.pos,
        }
    }
}

impl DeepView for Mutation {
    type V = MutationView;

    open spec fn deep_view(&self) -> MutationView {
        self@
    }
}

/// What the test suite made of a mutant.
#[derive(Debug, Clone, Copy, PartialEq, Eq, Structural)]
pub enum Verdict {
    /// The mutant builds and the tests fail: the change was caught.
    Killed,
    /// The mutant builds and the tests still pass: the change went unnoticed.
    Survived,
    /// The mutant does not build.
    BuildBroken,
}

/// A candidate together with its verdict.
///
/// `Success` holds a killed mutant, `Failure` one that survived, and
/// `BuildFailure` one that did not build.
#[derive(Debug, Clone)]
pub enum MutationResult {
    Success(Mutation),
    BuildFailure(Mutation),
    Failure(Mutation),
}

/// What a `MutationResult` stands for.
pub struct MutationResultView {
    pub verdict: Verdict,
    pub mutation: MutationView,
}

impl View for MutationResult {
    type V = MutationResultView;

    open spec fn view(&self) -> MutationResultView {
        match *self {
            MutationResult::Success(m) => MutationResultView {
                verdict: Verdict::Killed,
                mutation: m@,
            },
            MutationResult::BuildFailure(m) => MutationResultView {
                verdict: Verdict::BuildBroken,
                mutation: m@,
            },
            MutationResult::Failure(m) => MutationResultView {
                verdict: Verdict::Survived,
                mutation: m@,
            },
        }
    }
}

impl DeepView for MutationResult {
    type V = MutationResultView;

    open spec fn deep_view(&self) -> MutationResultView {
        self@
    }
}

impl MutationResultView {
    /// The text that describes the result to the user: the description of
    /// the candidate, marked as a build failure where it is one. A killed
    /// mutant and a survivor are described alike; which of the two a result
    /// is, the place in the report tells.
    pub open spec fn rendered(self, arrow: Seq<char>, bar: Seq<char>) -> Seq<char> {
        if self.verdict == Verdict::BuildBroken {
            "Build failure: "@ + self.mutation.rendered(arrow, bar)
        } else {
            self.mutation.rendered(arrow, bar)
        }
    }
}

impl MutationResult {
    /// The text that describes the result, behind the markers given.
    pub fn render(&self, arrow: &str, bar: &str) -> (s: String)
        ensures
            s@ == self@.rendered(arrow@, bar@),
    {
        match self {
            MutationResult::BuildFailure(m) => {
                let mut s = String::from_str("Build failure: ");
                let text = m.render(arrow, bar);
                s.append(text.as_str());
                s
            },
            MutationResult::Failure(m) => m.render(arrow, bar),
            MutationResult::Success(m) => m.render(arrow, bar),
        }
    }

    /// The text that describes the result to the user, the markers in blue
    /// where the terminal takes colours.
    pub fn to_string(&self) -> (s: String)
        ensures
            exists|a: Seq<char>, b: Seq<char>|
                painted_blue(arrow(), a) && painted_blue(bar(), b) && s@ == #[trigger] self@.rendered(
                    a,
                    b,
                ),
    {
        let (a, b) = markers();
        let s = self.render(a.as_str(), b.as_str());
        assert(s@ == self@.rendered(a@, b@));
        s
    }

    /// The candidate with the verdict it was given.
    pub fn new(mutation: Mutation, verdict: Verdict) -> (r: MutationResult)
        ensures
            r@ == (MutationResultView { verdict, mutation: mutation@ }),
    {
        match verdict {
            Verdict::Killed => MutationResult::Success(mutation),
            Verdict::BuildBroken => MutationResult::BuildFailure(mutation),
            Verdict::Survived => MutationResult::Failure(mutation),
        }
    }

    /// The verdict.
    pub fn verdict(&self) -> (v: Verdict)
        ensures
            v == self@.verdict,
    {
        match self {
            MutationResult::Success(_) => Verdict::Killed,
            MutationResult::BuildFailure(_) => Verdict::BuildBroken,
            MutationResult::Failure(_) => Verdict::Survived,
        }
    }

    /// The candidate.
    pub fn mutation(&self) -> (m: &Mutation)
        ensures
            m@ == self@.mutation,
    {
        match self {
            MutationResult::Success(m) => m,
            MutationResult::BuildFailure(m) => m,
            MutationResult::Failure(m) => m,
        }
    }
}

/// The marker that starts a comment running to the end of the line.
pub open spec fn comment_marker() -> Seq<char> {
    seq!['/', '/']
}

impl MutationType {
    /// The text of the operator.
    pub open spec fn token(self) -> Seq<char> {
        match self {
            MutationType::Equal => seq!['=', '='],
            MutationType::NotEqual => seq!['!', '='],
            MutationType::GreaterThan => seq![' ', '>', ' '],
            MutationType::GreaterThanOrEqual => seq!['>', '='],
            MutationType::LessThan => seq![' ', '<', ' '],
            MutationType::LessThanOrEqual => seq!['<', '='],
            MutationType::Assert => seq!['a', 's', 's', 'e', 'r', 't', '('],
            MutationType::AssertNot => seq!['a', 's', 's', 'e', 'r', 't', '(', '!'],
            MutationType::IsZero => seq!['.', 'i', 's', '_', 'z', 'e', 'r', 'o', '(', ')'],
            MutationType::IsNonZero => seq![
                '.',
                'i',
                's',
                '_',
                'n',
                'o',
                'n',
                '_',
                'z',
                'e',
                'r',
                'o',
                '(',
                ')',
            ],
            MutationType::And => seq![' ', '&', '&', ' '],
            MutationType::Or => seq![' ', '|', '|', ' '],
        }
    }

    /// Whether the operator compares by order.
    pub open spec fn is_ordering(self) -> bool {
        self == MutationType::GreaterThan || self == MutationType::GreaterThanOrEqual || self
            == MutationType::LessThan || self == MutationType::LessThanOrEqual
    }

    /// The operators that may take the place of this one, in the order in
    /// which candidates are made.
    ///
    /// A strict comparison becomes its non-strict counterpart or the reversed
    /// strict comparison; a non-strict one becomes equality or its strict
    /// counterpart. Every other operator has one partner and becomes that.
    pub open spec fn targets(self) -> Seq<MutationType> {
        match self {
            MutationType::Equal => seq![MutationType::NotEqual],
            MutationType::NotEqual => seq![MutationType::Equal],
            MutationType::GreaterThan => seq![
                MutationType::GreaterThanOrEqual,
                MutationType::LessThan,
            ],
            MutationType::GreaterThanOrEqual => seq![
                MutationType::Equal,
                MutationType::GreaterThan,
            ],
            MutationType::LessThan => seq![
                MutationType::LessThanOrEqual,
                MutationType::GreaterThan,
            ],
            MutationType::LessThanOrEqual => seq![MutationType::Equal, MutationType::LessThan],
            MutationType::Assert => seq![MutationType::AssertNot],
            MutationType::AssertNot => seq![MutationType::Assert],
            MutationType::IsZero => seq![MutationType::IsNonZero],
            MutationType::IsNonZero => seq![MutationType::IsZero],
            MutationType::And => seq![MutationType::Or],
            MutationType::Or => seq![MutationType::And],
        }
    }

    /// Whether `line` holds a site for this operator: the token stands on the
    /// line, and no comment starts to the left of its leftmost occurrence.
    pub open spec fn matched(self, line: Seq<char>) -> bool {
        match first_occurrence(line, self.token()) {
            None => false,
            Some(t) => match first_occurrence(line, comment_marker()) {
                None => true,
                Some(c) => !(c < t),
            },
        }
    }

    /// Whether every occurrence of the token on `line` has the start of a
    /// comment somewhere to its left.
    pub open spec fn shadowed(self, line: Seq<char>) -> bool {
        exists|c: int|
            occurs_at(line, comment_marker(), c) && forall|t: int|
                occurs_at(line, self.token(), t) ==> c < t
    }

    /// The candidates that this operator yields for one line: none where the
    /// line holds no site for it, else one for each target, whatever the
    /// number of occurrences on the line.
    pub open spec fn candidates(
        self,
        file_name: Seq<char>,
        line: Seq<char>,
        pos: nat,
    ) -> Seq<MutationView> {
        if self.matched(line) {
            Seq::new(
                self.targets().len(),
                |i: int|
                    MutationView { from: self, to: self.targets()[i], file_name, line, pos },
            )
        } else {
            Seq::empty()
        }
    }

    /// The text of the operator.
    pub fn as_str(&self) -> (s: &'static str)
        ensures
            s@ == self.token(),
    {
        match self {
            MutationType::Equal => {
                proof {
                    reveal_strlit("==");
                }
                assert("=="@ =~= self.token());
                "=="
            },
            MutationType::NotEqual => {
                proof {
                    reveal_strlit("!=");
                }
                assert("!="@ =~= self.token());
                "!="
            },
            MutationType::GreaterThan => {
                proof {
                    reveal_strlit(" > ");
                }
                assert(" > "@ =~= self.token());
                " > "
            },
            MutationType::GreaterThanOrEqual => {
                proof {
                    reveal_strlit(">=");
                }
                assert(">="@ =~= self.token());
                ">="
            },
            MutationType::LessThan => {
                proof {
                    reveal_strlit(" < ");
                }
                assert(" < "@ =~= self.token());
                " < "
            },
            MutationType::LessThanOrEqual => {
                proof {
                    reveal_strlit("<=");
                }
                assert("<="@ =~= self.token());
                "<="
            },
            MutationType::Assert => {
                proof {
                    reveal_strlit("assert(");
                }
                assert("assert("@ =~= self.token());
                "assert("
            },
            MutationType::AssertNot => {
                proof {
                    reveal_strlit("assert(!");
                }
                assert("assert(!"@ =~= self.token());
                "assert(!"
            },
            MutationType::IsZero => {
                proof {
                    reveal_strlit(".is_zero()");
                }
                assert(".is_zero()"@ =~= self.token());
                ".is_zero()"
            },
            MutationType::IsNonZero => {
                proof {
                    reveal_strlit(".is_non_zero()");
                }
                assert(".is_non_zero()"@ =~= self.token());
                ".is_non_zero()"
            },
            MutationType::And => {
                proof {
                    reveal_strlit(" && ");
                }
                assert(" && "@ =~= self.token());
                " && "
            },
            MutationType::Or => {
                proof {
                    reveal_strlit(" || ");
                }
                assert(" || "@ =~= self.token());
                " || "
            },
        }
    }

    /// The operators that may take the place of this one.
    pub fn target_list(&self) -> (r: Vec<MutationType>)
        ensures
            r@ == self.targets(),
    {
        let mut r: Vec<MutationType> = Vec::new();
        match self {
            MutationType::Equal => {
                r.push(MutationType::NotEqual);
            },
            MutationType::NotEqual => {
                r.push(MutationType::Equal);
            },
            MutationType::GreaterThan => {
                r.push(MutationType::GreaterThanOrEqual);
                r.push(MutationType::LessThan);
            },
            MutationType::GreaterThanOrEqual => {
                r.push(MutationType::Equal);
                r.push(MutationType::GreaterThan);
            },
            MutationType::LessThan => {
                r.push(MutationType::LessThanOrEqual);
                r.push(MutationType::GreaterThan);
            },
            MutationType::LessThanOrEqual => {
                r.push(MutationType::Equal);
                r.push(MutationType::LessThan);
            },
            MutationType::Assert => {
                r.push(MutationType::AssertNot);
            },
            MutationType::AssertNot => {
                r.push(MutationType::Assert);
            },
            MutationType::IsZero => {
                r.push(MutationType::IsNonZero);
            },
            MutationType::IsNonZero => {
                r.push(MutationType::IsZero);
            },
            MutationType::And => {
                r.push(MutationType::Or);
            },
            MutationType::Or => {
                r.push(MutationType::And);
            },
        }
        assert(r@ =~= self.targets());
        r
    }

    /// Whether `line` holds a site for this operator.
    pub fn matches(&self, line: &str) -> (r: bool)
        ensures
            r == self.matched(line@),
    {
        let chars = to_chars(line);
        let token = to_chars(self.as_str());
        match find_chars(&chars, &token) {
            None => false,
            Some(t) => {
                proof {
                    reveal_strlit("//");
                }
                let marker = to_chars("//");
                assert(marker@ =~= comment_marker());
                match find_chars(&chars, &marker) {
                    None => true,
                    Some(c) => !(c < t),
                }
            },
        }
    }

    /// The candidates that this operator yields for line `pos` of the file
    /// `file_name`, whose text is `line`.
    ///
    /// A line on which the token does not stand yields none, and so does a
    /// line on which a comment starts to the left of the token. Any other
    /// line yields one candidate for each target of the operator: one for an
    /// operator with a single partner, two for a comparison by order.
    pub fn others(&self, file_name: String, line: String, pos: usize) -> (r: Vec<Mutation>)
        ensures
            r.deep_view() == self.candidates(file_name@, line@, pos as nat),
            !occurs(line@, self.token()) ==> r@.len() == 0,
            self.shadowed(line@) ==> r@.len() == 0,
            self.matched(line@) ==> r@.len() == (if self.is_ordering() {
                2nat
            } else {
                1nat
            }),
    {
        proof {
            if self.shadowed(line@) {
                lemma_shadowed_is_unmatched(*self, line@);
            }
        }
        let mut r: Vec<Mutation> = Vec::new();
        if !self.matches(line.as_str()) {
            assert(r.deep_view() =~= self.candidates(file_name@, line@, pos as nat));
            return r;
        }
        let targets = self.target_list();
        let mut i: usize = 0;
        while i < targets.len()
            invariant
                i <= targets.len(),
                targets@ == self.targets(),
                r@.len() == i,
                forall|j: int|
                    0 <= j < i ==> (#[trigger] r@[j])@ == (MutationView {
                        from: *self,
                        to: targets@[j],
                        file_name: file_name@,
                        line: line@,
                        pos: pos as nat,
                    }),
            decreases targets.len() - i,
        {
            r.push(
                Mutation {
                    from: *self,
                    to: targets[i],
                    file_name: file_name.clone(),
                    line: line.clone(),
                    pos,
                },
            );
            i += 1;
        }
        assert(r.deep_view() =~= self.candidates(file_name@, line@, pos as nat));
        r
    }
}

/// A line on which the token does not stand yields no candidate.
pub proof fn lemma_absent_token_yields_nothing(
    op: MutationType,
    file_name: Seq<char>,
    line: Seq<char>,
    pos: nat,
)
    requires
        !occurs(line, op.token()),
    ensures
        op.candidates(file_name, line, pos).len() == 0,
{
}

/// A line on which every occurrence of the token has a comment marker to its
/// left holds no site for the operator.
pub proof fn lemma_shadowed_is_unmatched(op: MutationType, line: Seq<char>)
    requires
        op.shadowed(line),
    ensures
        !op.matched(line),
{
    let c = choose|c: int|
        occurs_at(line, comment_marker(), c) && forall|t: int|
            occurs_at(line, op.token(), t) ==> c < t;
    lemma_first_occurrence(line, op.token());
    lemma_first_occurrence(line, comment_marker());
    if let Some(t) = first_occurrence(line, op.token()) {
        assert(occurs_at(line, op.token(), t));
        let first = first_occurrence(line, comment_marker())->0;
        assert(is_first_occurrence(line, comment_marker(), first));
        if c < first {
            assert(!occurs_at(line, comment_marker(), c));
        }
    }
}

/// A token that stands only to the right of a comment marker yields no
/// candidate.
pub proof fn lemma_commented_token_yields_nothing(
    op: MutationType,
    file_name: Seq<char>,
    line: Seq<char>,
    pos: nat,
)
    requires
        op.shadowed(line),
    ensures
        op.candidates(file_name, line, pos).len() == 0,
{
    lemma_shadowed_is_unmatched(op, line);
}

/// A line that holds a site yields two candidates for a comparison by order
/// and one for every other operator, and each candidate names the operator,
/// one of its targets, and the line as it was given.
pub proof fn lemma_candidates_of_a_site(
    op: MutationType,
    file_name: Seq<char>,
    line: Seq<char>,
    pos: nat,
)
    requires
        op.matched(line),
    ensures
        op.candidates(file_name, line, pos).len() == (if op.is_ordering() {
            2nat
        } else {
            1nat
        }),
        forall|i: int|
            0 <= i < op.candidates(file_name, line, pos).len() ==> {
                let c = #[trigger] op.candidates(file_name, line, pos)[i];
                &&& c.from == op
                &&& c.to == op.targets()[i]
                &&& c.to != op
                &&& c.file_name == file_name
                &&& c.line == line
                &&& c.pos == pos
            },
{
}

/// A line on which the token stands twice yields one candidate for each
/// target, not one for each occurrence, and the mutated line of each
/// candidate has both occurrences replaced.
pub proof fn lemma_two_occurrences_one_candidate(
    op: MutationType,
    file_name: Seq<char>,
    a: Seq<char>,
    b: Seq<char>,
    c: Seq<char>,
    pos: nat,
)
    requires
        op.matched(a + op.token() + b + op.token() + c),
        forall|j: int| #[trigger]
            occurs_at(a + op.token() + b + op.token() + c, op.token(), j) ==> j == a.len() || j
                == a.len() + op.token().len() + b.len(),
    ensures
        op.candidates(file_name, a + op.token() + b + op.token() + c, pos).len()
            == op.targets().len(),
        forall|i: int|
            0 <= i < op.targets().len() ==> (#[trigger] op.candidates(
                file_name,
                a + op.token() + b + op.token() + c,
                pos,
            )[i]).mutated_line() == a + op.targets()[i].token() + b + op.targets()[i].token() + c,
{
    let line = a + op.token() + b + op.token() + c;
    assert forall|i: int| 0 <= i < op.targets().len() implies (#[trigger] op.candidates(
        file_name,
        line,
        pos,
    )[i]).mutated_line() == a + op.targets()[i].token() + b + op.targets()[i].token() + c by {
        lemma_replaced_two_occurrences(a, b, c, op.token(), op.targets()[i].token());
    }
}

/// Every candidate changes its line: the mutated line is never the line as
/// it was found.
pub proof fn lemma_mutant_differs(
    op: MutationType,
    file_name: Seq<char>,
    line: Seq<char>,
    pos: nat,
    i: int,
)
    requires
        0 <= i < op.candidates(file_name, line, pos).len(),
    ensures
        op.candidates(file_name, line, pos)[i].mutated_line() != line,
{
    let to = op.targets()[i];
    assert(occurs(line, op.token()));
    assert(to.token().len() != op.token().len() || exists|d: int|
        0 <= d < op.token().len() && op.token()[d] != to.token()[d]) by {
        if to.token().len() == op.token().len() {
            if op.token()[0] != to.token()[0] {
            } else {
                assert(op.token()[1] != to.token()[1]);
            }
        }
    }
    lemma_replaced_differs(line, op.token(), to.token());
}

} // verus!
