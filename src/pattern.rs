use vstd::prelude::*;

verus! {

/// How the request and the response of a method travel: one message or a
/// stream of messages in each direction.
#[derive(Clone, Copy, Debug, PartialEq, Eq, Structural)]
pub enum InteractionPattern {
    Unary,
    ServerStreaming,
    ClientStreaming,
    Bidirectional,
}

/// The pattern that the two streaming flags of a method select.
pub open spec fn pattern_of(client_streaming: bool, server_streaming: bool) -> InteractionPattern {
    if !client_streaming && !server_streaming {
        InteractionPattern::Unary
    } else if !client_streaming && server_streaming {
        InteractionPattern::ServerStreaming
    } else if client_streaming && !server_streaming {
        InteractionPattern::ClientStreaming
    } else {
        InteractionPattern::Bidirectional
    }
}

impl InteractionPattern {
    /// The client sends a stream of messages.
    pub open spec fn client_streams(self) -> bool {
        self is ClientStreaming || self is Bidirectional
    }

    /// The server sends a stream of messages.
    pub open spec fn server_streams(self) -> bool {
        self is ServerStreaming || self is Bidirectional
    }

    /// Whether the client streams its request under this pattern.
    pub fn client_streaming(&self) -> (r: bool)
        ensures
            r == self.client_streams(),
    {
        matches!(self, InteractionPattern::ClientStreaming | InteractionPattern::Bidirectional)
    }

    /// Whether the server streams its response under this pattern.
    pub fn server_streaming(&self) -> (r: bool)
        ensures
            r == self.server_streams(),
    {
        matches!(self, InteractionPattern::ServerStreaming | InteractionPattern::Bidirectional)
    }
}

/// Derives the interaction pattern from the two streaming flags.
pub fn classify(client_streaming: bool, server_streaming: bool) -> (r: InteractionPattern)
    ensures
        r == pattern_of(client_streaming, server_streaming),
{
    match (client_streaming, server_streaming) {
        (false, false) => InteractionPattern::Unary,
        (false, true) => InteractionPattern::ServerStreaming,
        (true, false) => InteractionPattern::ClientStreaming,
        (true, true) => InteractionPattern::Bidirectional,
    }
}

/// Classifying two flags and reading the flags back gives the same flags, and
/// classifying the flags of a pattern gives the same pattern: each of the four
/// combinations selects exactly one pattern, and each pattern one combination.
pub proof fn lemma_classify_round_trip(client_streaming: bool, server_streaming: bool, p: InteractionPattern)
    ensures
        pattern_of(client_streaming, server_streaming).client_streams() == client_streaming,
        pattern_of(client_streaming, server_streaming).server_streams() == server_streaming,
        pattern_of(p.client_streams(), p.server_streams()) == p,
{
}

/// Two combinations of flags select the same pattern only when they are equal.
pub proof fn lemma_classify_injective(c1: bool, s1: bool, c2: bool, s2: bool)
    ensures
        pattern_of(c1, s1) == pattern_of(c2, s2) <==> (c1 == c2 && s1 == s2),
{
}

} // verus!
