//! Hands raw query bytes to the external packet parser and converts what it
//! found into plain values: for each question, the dotted name bytes and the
//! query type.

use vstd::prelude::*;

verus! {

/// The query types the server distinguishes: IPv4 address records, IPv6
/// address records, and everything else (unsupported).
#[derive(Clone, Copy, Debug, PartialEq, Eq, Structural)]
pub enum QType {
    A,
    Aaaa,
    Other,
}

/// One question read out of a query packet.
pub struct Question {
    /// The queried name, dot-separated, case preserved.
    pub qname: Vec<u8>,
    /// The queried record type.
    pub qtype: QType,
}

/// Ghost image of a question.
pub struct QuestionView {
    pub qname: Seq<u8>,
    pub qtype: QType,
}

impl View for Question {
    type V = QuestionView;

    open spec fn view(&self) -> QuestionView {
        QuestionView { qname: self.qname@, qtype: self.qtype }
    }
}

/// A successfully parsed query: its questions in packet order.
pub struct ParsedQuery {
    pub questions: Vec<Question>,
}

impl View for ParsedQuery {
    type V = Seq<QuestionView>;

    open spec fn view(&self) -> Seq<QuestionView> {
        self.questions@.map_values(|q: Question| q@)
    }
}

/// Relies on dns_parser::Packet::parse: what it reads out of a byte
/// sequence is a function of those bytes alone — the packet's questions if
/// the bytes form a well-formed message, nothing otherwise.
pub uninterp spec fn parsed(b: Seq<u8>) -> Option<Seq<QuestionView>>;

/// Relies on dns_parser::Packet::parse to accept or reject the bytes, and
/// on dns_parser::Name::to_string for the dotted text of each question
/// name. Parsing never succeeds on fewer than the twelve header bytes.
#[verifier::external_body]
pub(crate) fn parse_query(raw: &Vec<u8>) -> (r: Option<ParsedQuery>)
    ensures
        match r {
            Some(q) => parsed(raw@) == Some(q@),
            None => parsed(raw@) is None,
        },
        r is Some ==> raw@.len() >= 12,
{
    let to_question = |q: &dns_parser::Question| Question {
        qname: q.qname.to_string().into_bytes(),
        qtype: match q.qtype {
            dns_parser::QueryType::A => QType::A,
            dns_parser::QueryType::AAAA => QType::Aaaa,
            _ => QType::Other,
        },
    };
    match dns_parser::Packet::parse(raw.as_slice()) {
        Ok(p) => Some(ParsedQuery { questions: p.questions.iter().map(to_question).collect() }),
        Err(_) => None,
    }
}

} // verus!
