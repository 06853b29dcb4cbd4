use ullam::text::TextBlock;
use ullam::analysis::{
    CausalRelevance, Evidence, EvidenceSource, EvidenceStrength, FlightAnalysis, Hypothesis, Issue,
    IssueImportance, TerminationAnalysis,
};

fn s(text: &str) -> String {
    text.to_string()
}

fn disarm_evidence() -> Evidence {
    Evidence {
        claim: s("Disarm event"),
        source: EvidenceSource {
            message: s("EV"),
            field: Some(s("Id")),
            timestamp: Some(s("12.500")),
            value: Some(s("11")),
        },
        timestamp: Some(s("12.500")),
        strength: EvidenceStrength::Strong,
    }
}

fn throttle_evidence() -> Evidence {
    Evidence {
        claim: s("Low throttle"),
        source: EvidenceSource { message: s("RCIN"), field: None, timestamp: None, value: None },
        timestamp: None,
        strength: EvidenceStrength::Weak,
    }
}

fn failsafe_evidence() -> Evidence {
    Evidence {
        claim: s("No failsafe"),
        source: EvidenceSource { message: s("ERR"), field: None, timestamp: None, value: Some(s("0")) },
        timestamp: None,
        strength: EvidenceStrength::Moderate,
    }
}

#[test]
fn evidence_lines() {
    assert_eq!(disarm_evidence().render(), "  - [strong] Disarm event (EV.Id @ 12.500s = 11) @ 12.500s\n");
    assert_eq!(throttle_evidence().render(), "  - [weak] Low throttle (RCIN)\n");
    assert_eq!(failsafe_evidence().source.render(), "ERR = 0");
}

#[test]
fn issue_block() {
    let issue = Issue {
        issue: s("Vibration"),
        importance: IssueImportance::Important,
        description: s("High Z vibration"),
        evidence: vec![throttle_evidence()],
        recommended_investigation: Some(s("Check mounts")),
        causal_relevance: Some(CausalRelevance::Unrelated),
    };
    assert_eq!(
        issue.render(),
        "- Vibration [important]\n  High Z vibration\n  Causal relevance: unrelated\n  Evidence:\n    - [weak] Low throttle (RCIN)\n  Recommended investigation: Check mounts\n"
    );
    let bare = Issue {
        issue: s("Gap"),
        importance: IssueImportance::Minor,
        description: s("d"),
        evidence: vec![],
        recommended_investigation: None,
        causal_relevance: None,
    };
    assert_eq!(bare.render(), "- Gap [minor]\n  d\n");
}

#[test]
fn hypothesis_block() {
    let h = Hypothesis {
        hypothesis: s("Failsafe"),
        confidence: 20,
        supporting_evidence: vec![],
        contradicting_evidence: vec![failsafe_evidence()],
    };
    assert_eq!(
        h.render(2),
        "2. Failsafe (20% confidence)\n   Contradicting evidence:\n     - [moderate] No failsafe (ERR = 0)\n\n"
    );
}

#[test]
fn full_analysis_report() {
    let analysis = FlightAnalysis {
        termination: TerminationAnalysis {
            event: s("EV=11 DISARMED"),
            assessment: s("Landed normally"),
            confidence: 80,
            causal_chain: vec![s("Throttle low"), s("Disarm")],
            evidence: vec![disarm_evidence()],
        },
        hypotheses: vec![
            Hypothesis {
                hypothesis: s("Pilot disarm"),
                confidence: 70,
                supporting_evidence: vec![throttle_evidence()],
                contradicting_evidence: vec![],
            },
            Hypothesis {
                hypothesis: s("Failsafe"),
                confidence: 20,
                supporting_evidence: vec![],
                contradicting_evidence: vec![failsafe_evidence()],
            },
        ],
        issues: vec![Issue {
            issue: s("Vibration"),
            importance: IssueImportance::Important,
            description: s("High Z vibration"),
            evidence: vec![throttle_evidence()],
            recommended_investigation: Some(s("Check mounts")),
            causal_relevance: Some(CausalRelevance::Unrelated),
        }],
        evidence_gaps: vec![s("No RCIN")],
    };
    let expected = String::new()
        + "Flight Analysis\n===============\n\nTermination Analysis\n--------------------\n"
        + "Event: EV=11 DISARMED\nAssessment: Landed normally\nConfidence: 80%\n"
        + "\nCausal Chain:\n  1. Throttle low\n  2. Disarm\n"
        + "\nEvidence:\n  - [strong] Disarm event (EV.Id @ 12.500s = 11) @ 12.500s\n\n"
        + "\nCompeting Hypotheses\n--------------------\n"
        + "1. Pilot disarm (70% confidence)\n   Supporting evidence:\n     - [weak] Low throttle (RCIN)\n\n"
        + "\n"
        + "2. Failsafe (20% confidence)\n   Contradicting evidence:\n     - [moderate] No failsafe (ERR = 0)\n\n"
        + "\nOther Issues\n------------\n"
        + "- Vibration [important]\n  High Z vibration\n  Causal relevance: unrelated\n  Evidence:\n    - [weak] Low throttle (RCIN)\n  Recommended investigation: Check mounts\n\n"
        + "\nEvidence Gaps\n------------\n- No RCIN\n";
    assert_eq!(analysis.render(), expected);
}

#[test]
fn empty_analysis_report() {
    let analysis = FlightAnalysis {
        termination: TerminationAnalysis {
            event: s("none"),
            assessment: s("unknown"),
            confidence: 0,
            causal_chain: vec![],
            evidence: vec![],
        },
        hypotheses: vec![],
        issues: vec![],
        evidence_gaps: vec![],
    };
    assert_eq!(
        analysis.render(),
        "Flight Analysis\n===============\n\nTermination Analysis\n--------------------\nEvent: none\nAssessment: unknown\nConfidence: 0%\n"
    );
}
