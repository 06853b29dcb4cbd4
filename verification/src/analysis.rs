use vstd::prelude::*;
use vstd::string::*;

use crate::text::{
    append_framed, append_optional, framed, optional_text, render_all, section, string_views, texts, TextBlock,
};
use crate::text::{decimal, decimal_string};
use crate::text::{lemma_listed_line_occurs, lemma_occurs_in_middle, lemma_occurs_in_transitive, lemma_seven_parts, lemma_framed_item, occurs_in};

verus! {

/// How strongly a piece of evidence supports its claim.
pub enum EvidenceStrength {
    Strong,
    Moderate,
    Weak,
}

impl EvidenceStrength {
    pub open spec fn label(&self) -> Seq<char> {
        match self {
            EvidenceStrength::Strong => "strong"@,
            EvidenceStrength::Moderate => "moderate"@,
            EvidenceStrength::Weak => "weak"@,
        }
    }

    pub fn as_str(&self) -> (res: &'static str)
        ensures
            res@ == self.label(),
    {
        match self {
            EvidenceStrength::Strong => "strong",
            EvidenceStrength::Moderate => "moderate",
            EvidenceStrength::Weak => "weak",
        }
    }
}

/// How much an issue matters.
pub enum IssueImportance {
    Critical,
    Important,
    Minor,
}

impl IssueImportance {
    pub open spec fn label(&self) -> Seq<char> {
        match self {
            IssueImportance::Critical => "critical"@,
            IssueImportance::Important => "important"@,
            IssueImportance::Minor => "minor"@,
        }
    }

    pub fn as_str(&self) -> (res: &'static str)
        ensures
            res@ == self.label(),
    {
        match self {
            IssueImportance::Critical => "critical",
            IssueImportance::Important => "important",
            IssueImportance::Minor => "minor",
        }
    }
}

/// How an issue relates to the end of the flight.
pub enum CausalRelevance {
    LikelyCause,
    PossibleCause,
    ContributingFactor,
    Unrelated,
    Unknown,
}

impl CausalRelevance {
    pub open spec fn label(&self) -> Seq<char> {
        match self {
            CausalRelevance::LikelyCause => "likely cause"@,
            CausalRelevance::PossibleCause => "possible cause"@,
            CausalRelevance::ContributingFactor => "contributing factor"@,
            CausalRelevance::Unrelated => "unrelated"@,
            CausalRelevance::Unknown => "unknown"@,
        }
    }

    /// The phrase under which the relevance is shown.
    pub fn as_str(&self) -> (res: &'static str)
        ensures
            res@ == self.label(),
    {
        match self {
            CausalRelevance::LikelyCause => "likely cause",
            CausalRelevance::PossibleCause => "possible cause",
            CausalRelevance::ContributingFactor => "contributing factor",
            CausalRelevance::Unrelated => "unrelated",
            CausalRelevance::Unknown => "unknown",
        }
    }
}

/// Where a piece of evidence was read. The numbers are given as the text
/// they are shown with: the time in seconds with three decimals, the value
/// as written.
pub struct EvidenceSource {
    pub message: String,
    pub field: Option<String>,
    pub timestamp: Option<String>,
    pub value: Option<String>,
}

impl TextBlock for EvidenceSource {
    /// The message, `.field`, ` @ <time>s` and ` = <value>`, each part that
    /// is present.
    open spec fn text(&self) -> Seq<char> {
        self.message@ + optional_text(self.field, "."@, ""@) + optional_text(self.timestamp, " @ "@, "s"@)
            + optional_text(self.value, " = "@, ""@)
    }

    fn render(&self) -> (res: String) {
        let mut out = self.message.clone();
        append_optional(&mut out, &self.field, ".", "");
        append_optional(&mut out, &self.timestamp, " @ ", "s");
        append_optional(&mut out, &self.value, " = ", "");
        out
    }
}

/// A claim, where it was read and how strongly it holds. The time is the
/// text it is shown with, in seconds with three decimals.
pub struct Evidence {
    pub claim: String,
    pub source: EvidenceSource,
    pub timestamp: Option<String>,
    pub strength: EvidenceStrength,
}

impl TextBlock for Evidence {
    /// `  - [<strength>] <claim> (<source>)`, ` @ <time>s` when there is a
    /// time, and a line break.
    open spec fn text(&self) -> Seq<char> {
        "  - ["@ + self.strength.label() + "] "@ + self.claim@ + " ("@ + self.source.text() + ")"@
            + optional_text(self.timestamp, " @ "@, "s"@) + "\n"@
    }

    fn render(&self) -> (res: String) {
        let mut out = String::from_str("  - [");
        out.append(self.strength.as_str());
        out.append("] ");
        out.append(self.claim.as_str());
        out.append(" (");
        let source = self.source.render();
        out.append(source.as_str());
        out.append(")");
        append_optional(&mut out, &self.timestamp, " @ ", "s");
        out.append("\n");
        out
    }
}

/// A problem found in the flight besides its end.
pub struct Issue {
    pub issue: String,
    pub importance: IssueImportance,
    pub description: String,
    pub evidence: Vec<Evidence>,
    pub recommended_investigation: Option<String>,
    pub causal_relevance: Option<CausalRelevance>,
}

impl TextBlock for Issue {
    /// The issue and its importance, its description, its causal relevance
    /// when known, its evidence when there is any, and the recommended
    /// investigation when there is one.
    open spec fn text(&self) -> Seq<char> {
        "- "@ + self.issue@ + " ["@ + self.importance.label() + "]\n"@ + "  "@ + self.description@ + "\n"@
            + match self.causal_relevance {
            Some(r) => "  Causal relevance: "@ + r.label() + "\n"@,
            None => Seq::empty(),
        } + section(
            self.evidence@.len() > 0,
            "  Evidence:\n"@,
            framed(texts(self.evidence@), "  "@, ""@),
        ) + optional_text(self.recommended_investigation, "  Recommended investigation: "@, "\n"@)
    }

    fn render(&self) -> (res: String) {
        let mut out = String::from_str("- ");
        out.append(self.issue.as_str());
        out.append(" [");
        out.append(self.importance.as_str());
        out.append("]\n");
        out.append("  ");
        out.append(self.description.as_str());
        out.append("\n");
        let ghost head = out@;
        match &self.causal_relevance {
            Some(r) => {
                out.append("  Causal relevance: ");
                out.append(r.as_str());
                out.append("\n");
                assert(out@ =~= head + ("  Causal relevance: "@ + r.label() + "\n"@));
            },
            None => {
                assert(out@ =~= head + Seq::<char>::empty());
            },
        }
        append_evidence_section(&mut out, &self.evidence, "  Evidence:\n", "  ", "");
        append_optional(&mut out, &self.recommended_investigation, "  Recommended investigation: ", "\n");
        out
    }
}

/// One explanation of the end of the flight, with the evidence for and
/// against it.
pub struct Hypothesis {
    pub hypothesis: String,
    pub confidence: u8,
    pub supporting_evidence: Vec<Evidence>,
    pub contradicting_evidence: Vec<Evidence>,
}

impl Hypothesis {
    /// The hypothesis as the `number`th of a list: its number, text and
    /// confidence, then its supporting and its contradicting evidence, each
    /// under a heading when there is any.
    pub open spec fn text(&self, number: nat) -> Seq<char> {
        decimal(number) + ". "@ + self.hypothesis@ + " ("@ + decimal(self.confidence as nat) + "% confidence)\n"@
            + section(
            self.supporting_evidence@.len() > 0,
            "   Supporting evidence:\n"@,
            framed(texts(self.supporting_evidence@), "   "@, "\n"@),
        ) + section(
            self.contradicting_evidence@.len() > 0,
            "   Contradicting evidence:\n"@,
            framed(texts(self.contradicting_evidence@), "   "@, "\n"@),
        )
    }

    pub fn render(&self, number: usize) -> (res: String)
        ensures
            res@ == self.text(number as nat),
    {
        let mut out = decimal_string(number as u64);
        out.append(". ");
        out.append(self.hypothesis.as_str());
        out.append(" (");
        let confidence = decimal_string(self.confidence as u64);
        out.append(confidence.as_str());
        out.append("% confidence)\n");
        append_evidence_section(&mut out, &self.supporting_evidence, "   Supporting evidence:\n", "   ", "\n");
        append_evidence_section(
            &mut out,
            &self.contradicting_evidence,
            "   Contradicting evidence:\n",
            "   ",
            "\n",
        );
        out
    }
}

/// The hypotheses, numbered from one, with a blank line between neighbours.
pub open spec fn hypotheses_text(hypotheses: Seq<Hypothesis>) -> Seq<char>
    decreases hypotheses.len(),
{
    if hypotheses.len() == 0 {
        Seq::empty()
    } else if hypotheses.len() == 1 {
        hypotheses[0].text(1)
    } else {
        hypotheses_text(hypotheses.drop_last()) + "\n"@ + hypotheses.last().text(hypotheses.len())
    }
}

fn append_hypotheses(out: &mut String, hypotheses: &Vec<Hypothesis>)
    ensures
        final(out)@ == old(out)@ + hypotheses_text(hypotheses@),
{
    let ghost start = out@;
    let mut i: usize = 0;
    assert(out@ =~= start + hypotheses_text(hypotheses@.take(0)));
    while i < hypotheses.len()
        invariant
            i <= hypotheses@.len(),
            out@ == start + hypotheses_text(hypotheses@.take(i as int)),
        decreases hypotheses@.len() - i,
    {
        let ghost before = out@;
        assert(hypotheses@.take(i + 1).drop_last() =~= hypotheses@.take(i as int));
        assert(hypotheses@.take(i + 1).last() == hypotheses@[i as int]);
        if i > 0 {
            out.append("\n");
        }
        let block = hypotheses[i].render(i + 1);
        out.append(block.as_str());
        proof {
            if i == 0 {
                assert(hypotheses@.take(1)[0] == hypotheses@[0]);
                assert(out@ =~= start + hypotheses_text(hypotheses@.take(1)));
            } else {
                assert(out@ =~= start + hypotheses_text(hypotheses@.take(i + 1)));
            }
        }
        i = i + 1;
    }
    assert(hypotheses@.take(hypotheses@.len() as int) =~= hypotheses@);
}

/// The steps of a causal chain, numbered from one, one per line.
pub open spec fn chain_lines(steps: Seq<Seq<char>>) -> Seq<char>
    decreases steps.len(),
{
    if steps.len() == 0 {
        Seq::empty()
    } else {
        chain_lines(steps.drop_last()) + "  "@ + decimal(steps.len()) + ". "@ + steps.last() + "\n"@
    }
}

fn append_chain(out: &mut String, steps: &Vec<String>)
    ensures
        final(out)@ == old(out)@ + chain_lines(string_views(steps@)),
{
    let ghost start = out@;
    let ghost views = string_views(steps@);
    let mut i: usize = 0;
    assert(out@ =~= start + chain_lines(views.take(0)));
    while i < steps.len()
        invariant
            i <= steps@.len(),
            views == string_views(steps@),
            out@ == start + chain_lines(views.take(i as int)),
        decreases steps@.len() - i,
    {
        assert(views.take(i + 1).drop_last() =~= views.take(i as int));
        assert(views.take(i + 1).last() == steps@[i as int]@);
        out.append("  ");
        let number = decimal_string((i + 1) as u64);
        out.append(number.as_str());
        out.append(". ");
        out.append(steps[i].as_str());
        out.append("\n");
        i = i + 1;
        assert(out@ =~= start + chain_lines(views.take(i as int)));
    }
    assert(views.take(steps@.len() as int) =~= views);
}

/// How the flight ended and why, as far as the evidence shows.
pub struct TerminationAnalysis {
    pub event: String,
    pub assessment: String,
    pub confidence: u8,
    pub causal_chain: Vec<String>,
    pub evidence: Vec<Evidence>,
}

/// The final report on a flight.
pub struct FlightAnalysis {
    pub termination: TerminationAnalysis,
    pub hypotheses: Vec<Hypothesis>,
    pub issues: Vec<Issue>,
    pub evidence_gaps: Vec<String>,
}

impl TextBlock for FlightAnalysis {
    /// The report: the termination analysis, then the causal chain, the
    /// evidence, the competing hypotheses, the other issues and the evidence
    /// gaps, each section only when it has entries.
    open spec fn text(&self) -> Seq<char> {
        let t = self.termination;
        "Flight Analysis\n===============\n\nTermination Analysis\n--------------------\nEvent: "@ + t.event@
            + "\nAssessment: "@ + t.assessment@ + "\nConfidence: "@ + decimal(t.confidence as nat) + "%\n"@
            + section(t.causal_chain@.len() > 0, "\nCausal Chain:\n"@, chain_lines(string_views(t.causal_chain@)))
            + section(t.evidence@.len() > 0, "\nEvidence:\n"@, framed(texts(t.evidence@), ""@, "\n"@))
            + section(
            self.hypotheses@.len() > 0,
            "\nCompeting Hypotheses\n--------------------\n"@,
            hypotheses_text(self.hypotheses@),
        ) + section(
            self.issues@.len() > 0,
            "\nOther Issues\n------------\n"@,
            framed(texts(self.issues@), ""@, "\n"@),
        ) + section(
            self.evidence_gaps@.len() > 0,
            "\nEvidence Gaps\n------------\n"@,
            framed(string_views(self.evidence_gaps@), "- "@, "\n"@),
        )
    }

    fn render(&self) -> (res: String) {
        let t = &self.termination;
        let mut out = String::from_str(
            "Flight Analysis\n===============\n\nTermination Analysis\n--------------------\nEvent: ",
        );
        out.append(t.event.as_str());
        out.append("\nAssessment: ");
        out.append(t.assessment.as_str());
        out.append("\nConfidence: ");
        let confidence = decimal_string(t.confidence as u64);
        out.append(confidence.as_str());
        out.append("%\n");
        append_chain_section(&mut out, &t.causal_chain);
        append_evidence_section(&mut out, &t.evidence, "\nEvidence:\n", "", "\n");
        append_hypotheses_section(&mut out, &self.hypotheses);
        append_issues_section(&mut out, &self.issues);
        append_gaps_section(&mut out, &self.evidence_gaps);
        out
    }
}

fn append_chain_section(out: &mut String, steps: &Vec<String>)
    ensures
        final(out)@ == old(out)@ + section(steps@.len() > 0, "\nCausal Chain:\n"@, chain_lines(string_views(steps@))),
{
    let ghost start = out@;
    if steps.len() > 0 {
        out.append("\nCausal Chain:\n");
        append_chain(out, steps);
        assert(out@ =~= start + ("\nCausal Chain:\n"@ + chain_lines(string_views(steps@))));
    } else {
        assert(out@ =~= start + Seq::<char>::empty());
    }
}

/// Appends `heading` and the evidence, each line between `before` and
/// `after`, when there is any evidence.
fn append_evidence_section(out: &mut String, evidence: &Vec<Evidence>, heading: &str, before: &str, after: &str)
    ensures
        final(out)@ == old(out)@ + section(evidence@.len() > 0, heading@, framed(texts(evidence@), before@, after@)),
{
    let ghost start = out@;
    if evidence.len() > 0 {
        out.append(heading);
        let lines = render_all(evidence);
        append_framed(out, &lines, before, after);
        assert(out@ =~= start + (heading@ + framed(texts(evidence@), before@, after@)));
    } else {
        assert(out@ =~= start + Seq::<char>::empty());
    }
}

fn append_hypotheses_section(out: &mut String, hypotheses: &Vec<Hypothesis>)
    ensures
        final(out)@ == old(out)@ + section(
            hypotheses@.len() > 0,
            "\nCompeting Hypotheses\n--------------------\n"@,
            hypotheses_text(hypotheses@),
        ),
{
    let ghost start = out@;
    if hypotheses.len() > 0 {
        out.append("\nCompeting Hypotheses\n--------------------\n");
        append_hypotheses(out, hypotheses);
        assert(out@ =~= start + ("\nCompeting Hypotheses\n--------------------\n"@ + hypotheses_text(hypotheses@)));
    } else {
        assert(out@ =~= start + Seq::<char>::empty());
    }
}

fn append_issues_section(out: &mut String, issues: &Vec<Issue>)
    ensures
        final(out)@ == old(out)@ + section(
            issues@.len() > 0,
            "\nOther Issues\n------------\n"@,
            framed(texts(issues@), ""@, "\n"@),
        ),
{
    let ghost start = out@;
    if issues.len() > 0 {
        out.append("\nOther Issues\n------------\n");
        let blocks = render_all(issues);
        append_framed(out, &blocks, "", "\n");
        assert(out@ =~= start + ("\nOther Issues\n------------\n"@ + framed(texts(issues@), ""@, "\n"@)));
    } else {
        assert(out@ =~= start + Seq::<char>::empty());
    }
}

fn append_gaps_section(out: &mut String, gaps: &Vec<String>)
    ensures
        final(out)@ == old(out)@ + section(
            gaps@.len() > 0,
            "\nEvidence Gaps\n------------\n"@,
            framed(string_views(gaps@), "- "@, "\n"@),
        ),
{
    let ghost start = out@;
    if gaps.len() > 0 {
        out.append("\nEvidence Gaps\n------------\n");
        append_framed(out, gaps, "- ", "\n");
        assert(out@ =~= start + ("\nEvidence Gaps\n------------\n"@ + framed(string_views(gaps@), "- "@, "\n"@)));
    } else {
        assert(out@ =~= start + Seq::<char>::empty());
    }
}

/// Each EvidenceStrength is shown by its own name, and no two share one.
pub proof fn lemma_evidence_strength_labels()
    ensures
        EvidenceStrength::Strong.label() == "strong"@,
        EvidenceStrength::Moderate.label() == "moderate"@,
        EvidenceStrength::Weak.label() == "weak"@,
        forall|a: EvidenceStrength, b: EvidenceStrength| #[trigger] a.label() == #[trigger] b.label() ==> a == b,
{
    reveal_strlit("strong");
    reveal_strlit("moderate");
    reveal_strlit("weak");
    assert forall|a: EvidenceStrength, b: EvidenceStrength| #[trigger] a.label() == #[trigger] b.label() implies a == b by {
        if a != b {
            match a {
                EvidenceStrength::Strong => {
                    assert(a.label() =~= "strong"@);
                    assert(a.label().len() == 6 && a.label()[0] == 's' && a.label()[1] == 't');
                },
                EvidenceStrength::Moderate => {
                    assert(a.label() =~= "moderate"@);
                    assert(a.label().len() == 8 && a.label()[0] == 'm' && a.label()[1] == 'o');
                },
                EvidenceStrength::Weak => {
                    assert(a.label() =~= "weak"@);
                    assert(a.label().len() == 4 && a.label()[0] == 'w' && a.label()[1] == 'e');
                },
            }
            match b {
                EvidenceStrength::Strong => {
                    assert(b.label() =~= "strong"@);
                    assert(b.label().len() == 6 && b.label()[0] == 's' && b.label()[1] == 't');
                },
                EvidenceStrength::Moderate => {
                    assert(b.label() =~= "moderate"@);
                    assert(b.label().len() == 8 && b.label()[0] == 'm' && b.label()[1] == 'o');
                },
                EvidenceStrength::Weak => {
                    assert(b.label() =~= "weak"@);
                    assert(b.label().len() == 4 && b.label()[0] == 'w' && b.label()[1] == 'e');
                },
            }
        }
    }
}

/// Each IssueImportance is shown by its own name, and no two share one.
pub proof fn lemma_issue_importance_labels()
    ensures
        IssueImportance::Critical.label() == "critical"@,
        IssueImportance::Important.label() == "important"@,
        IssueImportance::Minor.label() == "minor"@,
        forall|a: IssueImportance, b: IssueImportance| #[trigger] a.label() == #[trigger] b.label() ==> a == b,
{
    reveal_strlit("critical");
    reveal_strlit("important");
    reveal_strlit("minor");
    assert forall|a: IssueImportance, b: IssueImportance| #[trigger] a.label() == #[trigger] b.label() implies a == b by {
        if a != b {
            match a {
                IssueImportance::Critical => {
                    assert(a.label() =~= "critical"@);
                    assert(a.label().len() == 8 && a.label()[0] == 'c' && a.label()[1] == 'r');
                },
                IssueImportance::Important => {
                    assert(a.label() =~= "important"@);
                    assert(a.label().len() == 9 && a.label()[0] == 'i' && a.label()[1] == 'm');
                },
                IssueImportance::Minor => {
                    assert(a.label() =~= "minor"@);
                    assert(a.label().len() == 5 && a.label()[0] == 'm' && a.label()[1] == 'i');
                },
            }
            match b {
                IssueImportance::Critical => {
                    assert(b.label() =~= "critical"@);
                    assert(b.label().len() == 8 && b.label()[0] == 'c' && b.label()[1] == 'r');
                },
                IssueImportance::Important => {
                    assert(b.label() =~= "important"@);
                    assert(b.label().len() == 9 && b.label()[0] == 'i' && b.label()[1] == 'm');
                },
                IssueImportance::Minor => {
                    assert(b.label() =~= "minor"@);
                    assert(b.label().len() == 5 && b.label()[0] == 'm' && b.label()[1] == 'i');
                },
            }
        }
    }
}

/// Each CausalRelevance is shown by its own name, and no two share one.
pub proof fn lemma_causal_relevance_labels()
    ensures
        CausalRelevance::LikelyCause.label() == "likely cause"@,
        CausalRelevance::PossibleCause.label() == "possible cause"@,
        CausalRelevance::ContributingFactor.label() == "contributing factor"@,
        CausalRelevance::Unrelated.label() == "unrelated"@,
        CausalRelevance::Unknown.label() == "unknown"@,
        forall|a: CausalRelevance, b: CausalRelevance| #[trigger] a.label() == #[trigger] b.label() ==> a == b,
{
    reveal_strlit("likely cause");
    reveal_strlit("possible cause");
    reveal_strlit("contributing factor");
    reveal_strlit("unrelated");
    reveal_strlit("unknown");
    assert forall|a: CausalRelevance, b: CausalRelevance| #[trigger] a.label() == #[trigger] b.label() implies a == b by {
        if a != b {
            match a {
                CausalRelevance::LikelyCause => {
                    assert(a.label() =~= "likely cause"@);
                    assert(a.label().len() == 12 && a.label()[0] == 'l' && a.label()[1] == 'i');
                },
                CausalRelevance::PossibleCause => {
                    assert(a.label() =~= "possible cause"@);
                    assert(a.label().len() == 14 && a.label()[0] == 'p' && a.label()[1] == 'o');
                },
                CausalRelevance::ContributingFactor => {
                    assert(a.label() =~= "contributing factor"@);
                    assert(a.label().len() == 19 && a.label()[0] == 'c' && a.label()[1] == 'o');
                },
                CausalRelevance::Unrelated => {
                    assert(a.label() =~= "unrelated"@);
                    assert(a.label().len() == 9 && a.label()[0] == 'u' && a.label()[1] == 'n');
                },
                CausalRelevance::Unknown => {
                    assert(a.label() =~= "unknown"@);
                    assert(a.label().len() == 7 && a.label()[0] == 'u' && a.label()[1] == 'n');
                },
            }
            match b {
                CausalRelevance::LikelyCause => {
                    assert(b.label() =~= "likely cause"@);
                    assert(b.label().len() == 12 && b.label()[0] == 'l' && b.label()[1] == 'i');
                },
                CausalRelevance::PossibleCause => {
                    assert(b.label() =~= "possible cause"@);
                    assert(b.label().len() == 14 && b.label()[0] == 'p' && b.label()[1] == 'o');
                },
                CausalRelevance::ContributingFactor => {
                    assert(b.label() =~= "contributing factor"@);
                    assert(b.label().len() == 19 && b.label()[0] == 'c' && b.label()[1] == 'o');
                },
                CausalRelevance::Unrelated => {
                    assert(b.label() =~= "unrelated"@);
                    assert(b.label().len() == 9 && b.label()[0] == 'u' && b.label()[1] == 'n');
                },
                CausalRelevance::Unknown => {
                    assert(b.label() =~= "unknown"@);
                    assert(b.label().len() == 7 && b.label()[0] == 'u' && b.label()[1] == 'n');
                },
            }
        }
    }
}

/// A report shows all its sections: it opens with the event, assessment
/// and confidence of the termination analysis, and its causal chain,
/// evidence, hypotheses, other issues and evidence gaps, when there are
/// any, each follow their heading.
#[verifier::rlimit(40)]
pub proof fn lemma_analysis_sections(a: FlightAnalysis)
    ensures
        ("Flight Analysis\n===============\n\nTermination Analysis\n--------------------\nEvent: "@ + a.termination.event@
            + "\nAssessment: "@ + a.termination.assessment@ + "\nConfidence: "@ + decimal(
            a.termination.confidence as nat,
        ) + "%\n"@).is_prefix_of(a.text()),
        a.termination.causal_chain@.len() > 0 ==> occurs_in(
            a.text(),
            "\nCausal Chain:\n"@ + chain_lines(string_views(a.termination.causal_chain@)),
        ),
        a.termination.evidence@.len() > 0 ==> occurs_in(
            a.text(),
            "\nEvidence:\n"@ + framed(texts(a.termination.evidence@), ""@, "\n"@),
        ),
        a.hypotheses@.len() > 0 ==> occurs_in(
            a.text(),
            "\nCompeting Hypotheses\n--------------------\n"@ + hypotheses_text(a.hypotheses@),
        ),
        a.issues@.len() > 0 ==> occurs_in(a.text(), "\nOther Issues\n------------\n"@ + framed(texts(a.issues@), ""@, "\n"@)),
        a.evidence_gaps@.len() > 0 ==> occurs_in(
            a.text(),
            "\nEvidence Gaps\n------------\n"@ + framed(string_views(a.evidence_gaps@), "- "@, "\n"@),
        ),
{
    let t = a.termination;
    let head = "Flight Analysis\n===============\n\nTermination Analysis\n--------------------\nEvent: "@ + t.event@
        + "\nAssessment: "@ + t.assessment@ + "\nConfidence: "@ + decimal(t.confidence as nat) + "%\n"@;
    let s1 = section(t.causal_chain@.len() > 0, "\nCausal Chain:\n"@, chain_lines(string_views(t.causal_chain@)));
    let s2 = section(t.evidence@.len() > 0, "\nEvidence:\n"@, framed(texts(t.evidence@), ""@, "\n"@));
    let s3 = section(a.hypotheses@.len() > 0, "\nCompeting Hypotheses\n--------------------\n"@, hypotheses_text(a.hypotheses@));
    let s4 = section(a.issues@.len() > 0, "\nOther Issues\n------------\n"@, framed(texts(a.issues@), ""@, "\n"@));
    let s5 = section(
        a.evidence_gaps@.len() > 0,
        "\nEvidence Gaps\n------------\n"@,
        framed(string_views(a.evidence_gaps@), "- "@, "\n"@),
    );
    assert(a.text() == head + s1 + s2 + s3 + s4 + s5);
    lemma_seven_parts(head, s1, s2, s3, s4, s5, Seq::empty());
    assert(head + s1 + s2 + s3 + s4 + s5 + Seq::<char>::empty() =~= a.text());
}

/// A report leaves out none of the termination evidence, issues or
/// evidence gaps it holds: each evidence line, each issue block and each
/// gap's line is in its text.
pub proof fn lemma_analysis_shows_every_entry(a: FlightAnalysis)
    ensures
        forall|k: int|
            0 <= k < a.termination.evidence@.len() ==> occurs_in(a.text(), #[trigger] a.termination.evidence@[k].text()),
        forall|k: int| 0 <= k < a.issues@.len() ==> occurs_in(a.text(), #[trigger] a.issues@[k].text()),
        forall|k: int|
            0 <= k < a.evidence_gaps@.len() ==> occurs_in(a.text(), "- "@ + #[trigger] a.evidence_gaps@[k]@ + "\n"@),
{
    lemma_analysis_sections(a);
    let ev = a.termination.evidence@;
    assert forall|k: int| 0 <= k < ev.len() implies occurs_in(a.text(), #[trigger] ev[k].text()) by {
        assert(texts(ev)[k] == ev[k].text());
        lemma_listed_line_occurs("\nEvidence:\n"@, texts(ev), k);
        lemma_occurs_in_transitive(a.text(), "\nEvidence:\n"@ + framed(texts(ev), ""@, "\n"@), ev[k].text());
    }
    assert forall|k: int| 0 <= k < a.issues@.len() implies occurs_in(a.text(), #[trigger] a.issues@[k].text()) by {
        assert(texts(a.issues@)[k] == a.issues@[k].text());
        lemma_listed_line_occurs("\nOther Issues\n------------\n"@, texts(a.issues@), k);
        lemma_occurs_in_transitive(
            a.text(),
            "\nOther Issues\n------------\n"@ + framed(texts(a.issues@), ""@, "\n"@),
            a.issues@[k].text(),
        );
    }
    let gaps = string_views(a.evidence_gaps@);
    assert forall|k: int| 0 <= k < a.evidence_gaps@.len() implies occurs_in(
        a.text(),
        "- "@ + #[trigger] a.evidence_gaps@[k]@ + "\n"@,
    ) by {
        let f = framed(gaps, "- "@, "\n"@);
        let head = "\nEvidence Gaps\n------------\n"@;
        lemma_framed_item(gaps, k, "- "@, "\n"@);
        assert(gaps[k] == a.evidence_gaps@[k]@);
        lemma_occurs_in_middle(head, f, Seq::empty());
        assert(head + f + Seq::<char>::empty() =~= head + f);
        lemma_occurs_in_transitive(head + f, f, "- "@ + gaps[k] + "\n"@);
        lemma_occurs_in_transitive(a.text(), head + f, "- "@ + gaps[k] + "\n"@);
    }
}

/// An issue opens with its name and its importance in brackets, then its
/// description; its causal relevance, each of its evidence lines and its
/// recommended investigation, when present, are in its text.
pub proof fn lemma_issue_shows_everything(i: Issue)
    ensures
        ("- "@ + i.issue@ + " ["@ + i.importance.label() + "]\n"@ + "  "@ + i.description@ + "\n"@).is_prefix_of(
            i.text(),
        ),
        i.causal_relevance matches Some(r) ==> occurs_in(i.text(), "  Causal relevance: "@ + r.label() + "\n"@),
        i.recommended_investigation matches Some(inv) ==> occurs_in(
            i.text(),
            "  Recommended investigation: "@ + inv@ + "\n"@,
        ),
        forall|k: int| 0 <= k < i.evidence@.len() ==> occurs_in(i.text(), #[trigger] i.evidence@[k].text()),
{
    let head = "- "@ + i.issue@ + " ["@ + i.importance.label() + "]\n"@ + "  "@ + i.description@ + "\n"@;
    let rel = match i.causal_relevance {
        Some(r) => "  Causal relevance: "@ + r.label() + "\n"@,
        None => Seq::empty(),
    };
    let ev = section(i.evidence@.len() > 0, "  Evidence:\n"@, framed(texts(i.evidence@), "  "@, ""@));
    let inv = optional_text(i.recommended_investigation, "  Recommended investigation: "@, "\n"@);
    assert(i.text() == head + rel + ev + inv);
    lemma_seven_parts(head, rel, ev, inv, Seq::empty(), Seq::empty(), Seq::empty());
    assert(head + rel + ev + inv + Seq::<char>::empty() + Seq::<char>::empty() + Seq::<char>::empty() =~= i.text());
    assert forall|k: int| 0 <= k < i.evidence@.len() implies occurs_in(i.text(), #[trigger] i.evidence@[k].text()) by {
        let ts = texts(i.evidence@);
        let f = framed(ts, "  "@, ""@);
        assert(ts[k] == i.evidence@[k].text());
        lemma_framed_item(ts, k, "  "@, ""@);
        lemma_occurs_in_middle("  "@, ts[k], ""@);
        lemma_occurs_in_transitive(f, "  "@ + ts[k] + ""@, ts[k]);
        lemma_occurs_in_middle("  Evidence:\n"@, f, Seq::empty());
        assert("  Evidence:\n"@ + f + Seq::<char>::empty() =~= ev);
        lemma_occurs_in_transitive(ev, f, ts[k]);
        lemma_occurs_in_transitive(i.text(), ev, ts[k]);
    }
}

} // verus!
