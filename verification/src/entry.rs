//! Memory entries: the unit of the vault as its users see it.
use crate::engram::{
    link_views, Engram, EngramLayer, EngramLink, EngramSource, EngramView, LinkType, LinkView,
    PrivacyLevel,
};
use crate::ids::{memory_id, memory_id_shape, new_uuid};
use crate::measure::{Measure, HALF, ONE, ZERO};
use crate::text::{
    concat, decimal, decimal_text, opt_text, text_eq, texts,
};
use crate::time::Timestamp;
use vstd::prelude::*;
use vstd::std_specs::convert::FromSpecImpl;

verus! {

/// A unique identifier for a memory entry.
#[derive(Debug, PartialEq, Eq, Hash)]
pub struct MemoryId(pub String);

impl View for MemoryId {
    type V = Seq<char>;

    open spec fn view(&self) -> Seq<char> {
        self.0@
    }
}

impl Clone for MemoryId {
    fn clone(&self) -> (r: Self)
        ensures
            r@ == self@,
    {
        MemoryId(self.0.clone())
    }
}

impl MemoryId {
    /// A random identifier: `mem_` and 16 hexadecimal digits.
    pub fn new() -> (r: Self)
        ensures
            memory_id_shape(r@),
    {
        let uuid = new_uuid();
        proof {
            crate::ids::law_memory_ids_are_hexadecimal(uuid@);
        }
        MemoryId(memory_id(uuid.as_str()))
    }

    /// The identifier that a text stands for.
    pub fn from_string(s: String) -> (r: Self)
        ensures
            r.0 == s,
            r@ == s@,
    {
        MemoryId(s)
    }

    /// The identifier of a numbered episode.
    pub fn from_u64(id: u64) -> (r: Self)
        ensures
            r@ == "ep_"@ + decimal(id as nat),
    {
        let digits = decimal_text(id);
        MemoryId(concat("ep_", digits.as_str()))
    }

    /// The text of the identifier.
    pub fn as_str(&self) -> (r: &str)
        ensures
            r@ == self@,
    {
        self.0.as_str()
    }

    /// Whether two identifiers are the same.
    pub fn same(&self, other: &MemoryId) -> (r: bool)
        ensures
            r == (self@ == other@),
    {
        text_eq(self.0.as_str(), other.0.as_str())
    }
}

impl From<String> for MemoryId {
    fn from(s: String) -> (r: Self) {
        MemoryId(s)
    }
}

impl FromSpecImpl<String> for MemoryId {
    open spec fn obeys_from_spec() -> bool {
        true
    }

    open spec fn from_spec(s: String) -> Self {
        MemoryId(s)
    }
}

impl From<&str> for MemoryId {
    fn from(s: &str) -> (r: Self)
        ensures
            r@ == s@,
    {
        MemoryId(s.to_string())
    }
}

impl FromSpecImpl<&str> for MemoryId {
    open spec fn obeys_from_spec() -> bool {
        false
    }

    open spec fn from_spec(s: &str) -> Self {
        arbitrary()
    }
}

/// The layer a memory lies in.
#[derive(Debug, Clone, Copy, PartialEq, Eq, Structural)]
pub enum MemoryLayer {
    /// Direct experience: what happened.
    Episodic,
    /// Distilled abstraction: what was learned.
    Semantic,
    /// Generated; quarantine applies.
    Imagined,
}

impl MemoryLayer {
    /// The name under which the value is stored.
    pub open spec fn name(self) -> Seq<char> {
        match self {
            MemoryLayer::Episodic => "episodic"@,
            MemoryLayer::Semantic => "semantic"@,
            MemoryLayer::Imagined => "imagined"@,
        }
    }

    /// Whether a text names the value.
    pub open spec fn named(self, s: Seq<char>) -> bool {
        s == self.name()
    }

    proof fn lemma_names_differ()
        ensures
            forall|a: Self, b: Self, s: Seq<char>|
                #[trigger] a.named(s) && #[trigger] b.named(s) ==> a == b,
    {
        reveal_strlit("episodic");
        reveal_strlit("semantic");
        reveal_strlit("imagined");
        assert("episodic"@[0] == 'e');
        assert("semantic"@[0] == 's');
        assert("imagined"@[0] == 'i');
    }

    /// A text names at most one value, and every value is named by its own name: what is written
    /// with `as_str` reads back as the same value.
    pub proof fn law_names_are_unambiguous(a: Self, b: Self, s: Seq<char>)
        requires
            a.named(s),
            b.named(s),
        ensures
            a == b,
            a.named(a.name()),
    {
        Self::lemma_names_differ();
    }

    /// The name under which the value is stored.
    pub fn as_str(&self) -> (r: &'static str)
        ensures
            r@ == self.name(),
    {
        match self {
            MemoryLayer::Episodic => "episodic",
            MemoryLayer::Semantic => "semantic",
            MemoryLayer::Imagined => "imagined",
        }
    }

    /// The value that a text names, if it names one.
    pub fn from_str(s: &str) -> (r: Option<Self>)
        ensures
            forall|v: Self| #[trigger] v.named(s@) <==> r == Some(v),
    {
        proof {
            Self::lemma_names_differ();
        }
        if text_eq(s, "episodic") {
            proof {
                assert(MemoryLayer::Episodic.named(s@));
            }
            Some(MemoryLayer::Episodic)
        } else if text_eq(s, "semantic") {
            proof {
                assert(MemoryLayer::Semantic.named(s@));
            }
            Some(MemoryLayer::Semantic)
        } else if text_eq(s, "imagined") {
            proof {
                assert(MemoryLayer::Imagined.named(s@));
            }
            Some(MemoryLayer::Imagined)
        } else {
            None
        }
    }
}

/// How broad a memory's temporal scope is.
#[derive(Debug, Clone, Copy, PartialEq, Eq, Structural)]
pub enum MemoryScope {
    /// A single observation.
    Moment,
    /// A session of several turns.
    Episode,
    /// A durable storyline across episodes.
    Narrative,
    /// A rule crystallized by consolidation.
    Rule,
}

impl Default for MemoryScope {
    fn default() -> (r: Self)
        ensures
            r == MemoryScope::Moment,
    {
        MemoryScope::Moment
    }
}

impl MemoryScope {
    /// The name under which the value is stored.
    pub open spec fn name(self) -> Seq<char> {
        match self {
            MemoryScope::Moment => "moment"@,
            MemoryScope::Episode => "episode"@,
            MemoryScope::Narrative => "narrative"@,
            MemoryScope::Rule => "rule"@,
        }
    }

    /// Whether a text names the value.
    pub open spec fn named(self, s: Seq<char>) -> bool {
        s == self.name()
    }

    proof fn lemma_names_differ()
        ensures
            forall|a: Self, b: Self, s: Seq<char>|
                #[trigger] a.named(s) && #[trigger] b.named(s) ==> a == b,
    {
        reveal_strlit("moment");
        reveal_strlit("episode");
        reveal_strlit("narrative");
        reveal_strlit("rule");
        assert("moment"@[0] == 'm');
        assert("episode"@[0] == 'e');
        assert("narrative"@[0] == 'n');
        assert("rule"@[0] == 'r');
    }

    /// A text names at most one value, and every value is named by its own name: what is written
    /// with `as_str` reads back as the same value.
    pub proof fn law_names_are_unambiguous(a: Self, b: Self, s: Seq<char>)
        requires
            a.named(s),
            b.named(s),
        ensures
            a == b,
            a.named(a.name()),
    {
        Self::lemma_names_differ();
    }

    /// The name under which the value is stored.
    pub fn as_str(&self) -> (r: &'static str)
        ensures
            r@ == self.name(),
    {
        match self {
            MemoryScope::Moment => "moment",
            MemoryScope::Episode => "episode",
            MemoryScope::Narrative => "narrative",
            MemoryScope::Rule => "rule",
        }
    }

    /// The value that a text names, if it names one.
    pub fn from_str(s: &str) -> (r: Option<Self>)
        ensures
            forall|v: Self| #[trigger] v.named(s@) <==> r == Some(v),
    {
        proof {
            Self::lemma_names_differ();
        }
        if text_eq(s, "moment") {
            proof {
                assert(MemoryScope::Moment.named(s@));
            }
            Some(MemoryScope::Moment)
        } else if text_eq(s, "episode") {
            proof {
                assert(MemoryScope::Episode.named(s@));
            }
            Some(MemoryScope::Episode)
        } else if text_eq(s, "narrative") {
            proof {
                assert(MemoryScope::Narrative.named(s@));
            }
            Some(MemoryScope::Narrative)
        } else if text_eq(s, "rule") {
            proof {
                assert(MemoryScope::Rule.named(s@));
            }
            Some(MemoryScope::Rule)
        } else {
            None
        }
    }
}

/// What kind of content a memory holds.
#[derive(Debug, Clone, Copy, PartialEq, Eq, Structural)]
pub enum ContentType {
    /// Plain text.
    Text,
    /// A graph of reasoning frames.
    Frames,
    /// A chat of several turns.
    Conversation,
    /// The state of the environment.
    Context,
}

impl Default for ContentType {
    fn default() -> (r: Self)
        ensures
            r == ContentType::Text,
    {
        ContentType::Text
    }
}

impl ContentType {
    /// The name under which the value is stored.
    pub open spec fn name(self) -> Seq<char> {
        match self {
            ContentType::Text => "text"@,
            ContentType::Frames => "frames"@,
            ContentType::Conversation => "conversation"@,
            ContentType::Context => "context"@,
        }
    }

    /// Whether a text names the value.
    pub open spec fn named(self, s: Seq<char>) -> bool {
        s == self.name()
    }

    proof fn lemma_names_differ()
        ensures
            forall|a: Self, b: Self, s: Seq<char>|
                #[trigger] a.named(s) && #[trigger] b.named(s) ==> a == b,
    {
        reveal_strlit("text");
        reveal_strlit("frames");
        reveal_strlit("conversation");
        reveal_strlit("context");
        assert("text"@[0] == 't');
        assert("frames"@[0] == 'f');
        assert("conversation"@[0] == 'c' && "conversation"@[3] == 'v');
        assert("context"@[0] == 'c' && "context"@[3] == 't');
    }

    /// A text names at most one value, and every value is named by its own name: what is written
    /// with `as_str` reads back as the same value.
    pub proof fn law_names_are_unambiguous(a: Self, b: Self, s: Seq<char>)
        requires
            a.named(s),
            b.named(s),
        ensures
            a == b,
            a.named(a.name()),
    {
        Self::lemma_names_differ();
    }

    /// The name under which the value is stored.
    pub fn as_str(&self) -> (r: &'static str)
        ensures
            r@ == self.name(),
    {
        match self {
            ContentType::Text => "text",
            ContentType::Frames => "frames",
            ContentType::Conversation => "conversation",
            ContentType::Context => "context",
        }
    }

    /// The value that a text names, if it names one.
    pub fn from_str(s: &str) -> (r: Option<Self>)
        ensures
            forall|v: Self| #[trigger] v.named(s@) <==> r == Some(v),
    {
        proof {
            Self::lemma_names_differ();
        }
        if text_eq(s, "text") {
            proof {
                assert(ContentType::Text.named(s@));
            }
            Some(ContentType::Text)
        } else if text_eq(s, "frames") {
            proof {
                assert(ContentType::Frames.named(s@));
            }
            Some(ContentType::Frames)
        } else if text_eq(s, "conversation") {
            proof {
                assert(ContentType::Conversation.named(s@));
            }
            Some(ContentType::Conversation)
        } else if text_eq(s, "context") {
            proof {
                assert(ContentType::Context.named(s@));
            }
            Some(ContentType::Context)
        } else {
            None
        }
    }
}

/// Where a memory came from.
#[derive(Debug, Clone, Copy, PartialEq, Eq, Structural)]
pub enum MemorySource {
    Interaction,
    Sensor,
    Consolidation,
    Imagined,
    Chat,
    Slack,
    Discord,
    Telegram,
    Window,
    Mic,
    Agent,
    Research,
    System,
    Observation,
    AiSession,
    AiTool,
}

impl MemorySource {
    /// The name under which the value is stored.
    pub open spec fn name(self) -> Seq<char> {
        match self {
            MemorySource::Interaction => "interaction"@,
            MemorySource::Sensor => "sensor"@,
            MemorySource::Consolidation => "consolidation"@,
            MemorySource::Imagined => "imagined"@,
            MemorySource::Chat => "chat"@,
            MemorySource::Slack => "slack"@,
            MemorySource::Discord => "discord"@,
            MemorySource::Telegram => "telegram"@,
            MemorySource::Window => "window"@,
            MemorySource::Mic => "mic"@,
            MemorySource::Agent => "agent"@,
            MemorySource::Research => "research"@,
            MemorySource::System => "system"@,
            MemorySource::Observation => "observation"@,
            MemorySource::AiSession => "ai-session"@,
            MemorySource::AiTool => "ai-tool"@,
        }
    }

    /// Whether a text names the value.
    pub open spec fn named(self, s: Seq<char>) -> bool {
        s == self.name()
    }

    proof fn lemma_names_differ()
        ensures
            forall|a: Self, b: Self, s: Seq<char>|
                #[trigger] a.named(s) && #[trigger] b.named(s) ==> a == b,
    {
        reveal_strlit("interaction");
        reveal_strlit("sensor");
        reveal_strlit("consolidation");
        reveal_strlit("imagined");
        reveal_strlit("chat");
        reveal_strlit("slack");
        reveal_strlit("discord");
        reveal_strlit("telegram");
        reveal_strlit("window");
        reveal_strlit("mic");
        reveal_strlit("agent");
        reveal_strlit("research");
        reveal_strlit("system");
        reveal_strlit("observation");
        reveal_strlit("ai-session");
        reveal_strlit("ai-tool");
        assert("interaction"@[0] == 'i' && "interaction"@[1] == 'n');
        assert("sensor"@[0] == 's' && "sensor"@[1] == 'e');
        assert("consolidation"@[0] == 'c' && "consolidation"@[1] == 'o');
        assert("imagined"@[0] == 'i' && "imagined"@[1] == 'm');
        assert("chat"@[0] == 'c' && "chat"@[1] == 'h');
        assert("slack"@[0] == 's' && "slack"@[1] == 'l');
        assert("discord"@[0] == 'd');
        assert("telegram"@[0] == 't');
        assert("window"@[0] == 'w');
        assert("mic"@[0] == 'm');
        assert("agent"@[0] == 'a' && "agent"@[1] == 'g');
        assert("research"@[0] == 'r');
        assert("system"@[0] == 's' && "system"@[1] == 'y');
        assert("observation"@[0] == 'o');
        assert("ai-session"@[0] == 'a' && "ai-session"@[1] == 'i' && "ai-session"@[3] == 's');
        assert("ai-tool"@[0] == 'a' && "ai-tool"@[1] == 'i' && "ai-tool"@[3] == 't');
    }

    /// A text names at most one value, and every value is named by its own name: what is written
    /// with `as_str` reads back as the same value.
    pub proof fn law_names_are_unambiguous(a: Self, b: Self, s: Seq<char>)
        requires
            a.named(s),
            b.named(s),
        ensures
            a == b,
            a.named(a.name()),
    {
        Self::lemma_names_differ();
    }

    /// The name under which the value is stored.
    pub fn as_str(&self) -> (r: &'static str)
        ensures
            r@ == self.name(),
    {
        match self {
            MemorySource::Interaction => "interaction",
            MemorySource::Sensor => "sensor",
            MemorySource::Consolidation => "consolidation",
            MemorySource::Imagined => "imagined",
            MemorySource::Chat => "chat",
            MemorySource::Slack => "slack",
            MemorySource::Discord => "discord",
            MemorySource::Telegram => "telegram",
            MemorySource::Window => "window",
            MemorySource::Mic => "mic",
            MemorySource::Agent => "agent",
            MemorySource::Research => "research",
            MemorySource::System => "system",
            MemorySource::Observation => "observation",
            MemorySource::AiSession => "ai-session",
            MemorySource::AiTool => "ai-tool",
        }
    }

    /// The value that a text names, if it names one.
    pub fn from_str(s: &str) -> (r: Option<Self>)
        ensures
            forall|v: Self| #[trigger] v.named(s@) <==> r == Some(v),
    {
        proof {
            Self::lemma_names_differ();
        }
        if text_eq(s, "interaction") {
            proof {
                assert(MemorySource::Interaction.named(s@));
            }
            Some(MemorySource::Interaction)
        } else if text_eq(s, "sensor") {
            proof {
                assert(MemorySource::Sensor.named(s@));
            }
            Some(MemorySource::Sensor)
        } else if text_eq(s, "consolidation") {
            proof {
                assert(MemorySource::Consolidation.named(s@));
            }
            Some(MemorySource::Consolidation)
        } else if text_eq(s, "imagined") {
            proof {
                assert(MemorySource::Imagined.named(s@));
            }
            Some(MemorySource::Imagined)
        } else if text_eq(s, "chat") {
            proof {
                assert(MemorySource::Chat.named(s@));
            }
            Some(MemorySource::Chat)
        } else if text_eq(s, "slack") {
            proof {
                assert(MemorySource::Slack.named(s@));
            }
            Some(MemorySource::Slack)
        } else if text_eq(s, "discord") {
            proof {
                assert(MemorySource::Discord.named(s@));
            }
            Some(MemorySource::Discord)
        } else if text_eq(s, "telegram") {
            proof {
                assert(MemorySource::Telegram.named(s@));
            }
            Some(MemorySource::Telegram)
        } else if text_eq(s, "window") {
            proof {
                assert(MemorySource::Window.named(s@));
            }
            Some(MemorySource::Window)
        } else if text_eq(s, "mic") {
            proof {
                assert(MemorySource::Mic.named(s@));
            }
            Some(MemorySource::Mic)
        } else if text_eq(s, "agent") {
            proof {
                assert(MemorySource::Agent.named(s@));
            }
            Some(MemorySource::Agent)
        } else if text_eq(s, "research") {
            proof {
                assert(MemorySource::Research.named(s@));
            }
            Some(MemorySource::Research)
        } else if text_eq(s, "system") {
            proof {
                assert(MemorySource::System.named(s@));
            }
            Some(MemorySource::System)
        } else if text_eq(s, "observation") {
            proof {
                assert(MemorySource::Observation.named(s@));
            }
            Some(MemorySource::Observation)
        } else if text_eq(s, "ai-session") {
            proof {
                assert(MemorySource::AiSession.named(s@));
            }
            Some(MemorySource::AiSession)
        } else if text_eq(s, "ai-tool") {
            proof {
                assert(MemorySource::AiTool.named(s@));
            }
            Some(MemorySource::AiTool)
        } else {
            None
        }
    }
}

/// The memory layer that corresponds to an engram layer.
pub open spec fn memory_layer_of(l: EngramLayer) -> MemoryLayer {
    match l {
        EngramLayer::Episodic => MemoryLayer::Episodic,
        EngramLayer::Semantic => MemoryLayer::Semantic,
        EngramLayer::Imagined => MemoryLayer::Imagined,
    }
}

/// The engram layer that corresponds to a memory layer.
pub open spec fn engram_layer_of(l: MemoryLayer) -> EngramLayer {
    match l {
        MemoryLayer::Episodic => EngramLayer::Episodic,
        MemoryLayer::Semantic => EngramLayer::Semantic,
        MemoryLayer::Imagined => EngramLayer::Imagined,
    }
}

impl From<EngramLayer> for MemoryLayer {
    fn from(l: EngramLayer) -> (r: Self) {
        match l {
            EngramLayer::Episodic => MemoryLayer::Episodic,
            EngramLayer::Semantic => MemoryLayer::Semantic,
            EngramLayer::Imagined => MemoryLayer::Imagined,
        }
    }
}

impl FromSpecImpl<EngramLayer> for MemoryLayer {
    open spec fn obeys_from_spec() -> bool {
        true
    }

    open spec fn from_spec(l: EngramLayer) -> Self {
        memory_layer_of(l)
    }
}

impl From<MemoryLayer> for EngramLayer {
    fn from(l: MemoryLayer) -> (r: Self) {
        memory_layer_to_engram_layer(l)
    }
}

impl FromSpecImpl<MemoryLayer> for EngramLayer {
    open spec fn obeys_from_spec() -> bool {
        true
    }

    open spec fn from_spec(l: MemoryLayer) -> Self {
        engram_layer_of(l)
    }
}

/// The engram layer that corresponds to a memory layer.
pub fn memory_layer_to_engram_layer(l: MemoryLayer) -> (r: EngramLayer)
    ensures
        r == engram_layer_of(l),
{
    match l {
        MemoryLayer::Episodic => EngramLayer::Episodic,
        MemoryLayer::Semantic => EngramLayer::Semantic,
        MemoryLayer::Imagined => EngramLayer::Imagined,
    }
}

/// The memory source that corresponds to an engram source.
pub open spec fn memory_source_of(s: EngramSource) -> MemorySource {
    match s {
        EngramSource::Interaction => MemorySource::Interaction,
        EngramSource::Sensor => MemorySource::Sensor,
        EngramSource::Consolidation => MemorySource::Consolidation,
        EngramSource::Imagined => MemorySource::Imagined,
        EngramSource::Chat => MemorySource::Chat,
        EngramSource::Slack => MemorySource::Slack,
        EngramSource::Discord => MemorySource::Discord,
        EngramSource::Telegram => MemorySource::Telegram,
        EngramSource::Window => MemorySource::Window,
        EngramSource::Mic => MemorySource::Mic,
        EngramSource::Agent => MemorySource::Agent,
        EngramSource::Research => MemorySource::Research,
        EngramSource::System => MemorySource::System,
        EngramSource::Observation => MemorySource::Observation,
        EngramSource::AiSession => MemorySource::AiSession,
        EngramSource::AiTool => MemorySource::AiTool,
    }
}

/// The engram source that corresponds to a memory source.
pub open spec fn engram_source_of(s: MemorySource) -> EngramSource {
    match s {
        MemorySource::Interaction => EngramSource::Interaction,
        MemorySource::Sensor => EngramSource::Sensor,
        MemorySource::Consolidation => EngramSource::Consolidation,
        MemorySource::Imagined => EngramSource::Imagined,
        MemorySource::Chat => EngramSource::Chat,
        MemorySource::Slack => EngramSource::Slack,
        MemorySource::Discord => EngramSource::Discord,
        MemorySource::Telegram => EngramSource::Telegram,
        MemorySource::Window => EngramSource::Window,
        MemorySource::Mic => EngramSource::Mic,
        MemorySource::Agent => EngramSource::Agent,
        MemorySource::Research => EngramSource::Research,
        MemorySource::System => EngramSource::System,
        MemorySource::Observation => EngramSource::Observation,
        MemorySource::AiSession => EngramSource::AiSession,
        MemorySource::AiTool => EngramSource::AiTool,
    }
}

impl From<EngramSource> for MemorySource {
    fn from(s: EngramSource) -> (r: Self) {
        match s {
            EngramSource::Interaction => MemorySource::Interaction,
            EngramSource::Sensor => MemorySource::Sensor,
            EngramSource::Consolidation => MemorySource::Consolidation,
            EngramSource::Imagined => MemorySource::Imagined,
            EngramSource::Chat => MemorySource::Chat,
            EngramSource::Slack => MemorySource::Slack,
            EngramSource::Discord => MemorySource::Discord,
            EngramSource::Telegram => MemorySource::Telegram,
            EngramSource::Window => MemorySource::Window,
            EngramSource::Mic => MemorySource::Mic,
            EngramSource::Agent => MemorySource::Agent,
            EngramSource::Research => MemorySource::Research,
            EngramSource::System => MemorySource::System,
            EngramSource::Observation => MemorySource::Observation,
            EngramSource::AiSession => MemorySource::AiSession,
            EngramSource::AiTool => MemorySource::AiTool,
        }
    }
}

impl FromSpecImpl<EngramSource> for MemorySource {
    open spec fn obeys_from_spec() -> bool {
        true
    }

    open spec fn from_spec(s: EngramSource) -> Self {
        memory_source_of(s)
    }
}

/// A typed link from one memory to another.
#[derive(Debug)]
pub struct MemoryLink {
    pub target_id: MemoryId,
    pub weight: Measure,
    pub link_type: LinkType,
}

impl View for MemoryLink {
    type V = LinkView;

    open spec fn view(&self) -> LinkView {
        LinkView { target_id: self.target_id@, weight: self.weight, link_type: self.link_type }
    }
}

impl Clone for MemoryLink {
    fn clone(&self) -> (r: Self)
        ensures
            r@ == self@,
    {
        MemoryLink {
            target_id: self.target_id.clone(),
            weight: self.weight,
            link_type: self.link_type,
        }
    }
}

impl From<EngramLink> for MemoryLink {
    fn from(l: EngramLink) -> (r: Self)
        ensures
            r@ == l@,
    {
        MemoryLink {
            target_id: MemoryId::from_string(l.target_id),
            weight: l.weight,
            link_type: l.link_type,
        }
    }
}

impl FromSpecImpl<EngramLink> for MemoryLink {
    open spec fn obeys_from_spec() -> bool {
        true
    }

    open spec fn from_spec(l: EngramLink) -> Self {
        MemoryLink {
            target_id: MemoryId(l.target_id),
            weight: l.weight,
            link_type: l.link_type,
        }
    }
}

/// What a list of links says.
pub open spec fn memory_link_views(v: Seq<MemoryLink>) -> Seq<LinkView> {
    v.map_values(|l: MemoryLink| l@)
}

/// The links of an engram as links of a memory.
pub fn to_memory_links(links: &Vec<EngramLink>) -> (r: Vec<MemoryLink>)
    ensures
        memory_link_views(r@) == link_views(links@),
{
    let mut out: Vec<MemoryLink> = Vec::new();
    let mut i: usize = 0;
    while i < links.len()
        invariant
            i <= links@.len(),
            out@.len() == i,
            forall|j: int| 0 <= j < i ==> #[trigger] out@[j]@ == links@[j]@,
        decreases links@.len() - i,
    {
        out.push(MemoryLink::from(links[i].clone()));
        i += 1;
    }
    assert(memory_link_views(out@) =~= link_views(links@));
    out
}

fn to_engram_links(links: &Vec<MemoryLink>) -> (r: Vec<EngramLink>)
    ensures
        link_views(r@) == memory_link_views(links@),
{
    let mut out: Vec<EngramLink> = Vec::new();
    let mut i: usize = 0;
    while i < links.len()
        invariant
            i <= links@.len(),
            out@.len() == i,
            forall|j: int| 0 <= j < i ==> #[trigger] out@[j]@ == links@[j]@,
        decreases links@.len() - i,
    {
        let l = &links[i];
        out.push(
            EngramLink {
                target_id: l.target_id.0.clone(),
                weight: l.weight,
                link_type: l.link_type,
            },
        );
        i += 1;
    }
    assert(link_views(out@) =~= memory_link_views(links@));
    out
}

/// Reference to a memory that supports or contradicts another, or gives it context.
#[derive(Debug)]
pub struct EvidenceRef {
    pub memory_id: MemoryId,
    pub relationship: String,
}

/// What a reference says.
#[verifier::ext_equal]
pub struct EvidenceView {
    pub memory_id: Seq<char>,
    pub relationship: Seq<char>,
}

impl View for EvidenceRef {
    type V = EvidenceView;

    open spec fn view(&self) -> EvidenceView {
        EvidenceView { memory_id: self.memory_id@, relationship: self.relationship@ }
    }
}

/// What a list of references says.
pub open spec fn evidence_views(v: Seq<EvidenceRef>) -> Seq<EvidenceView> {
    v.map_values(|e: EvidenceRef| e@)
}

/// A single memory entry. `context` is a JSON text.
#[derive(Debug)]
pub struct MemoryEntry {
    pub id: MemoryId,
    pub layer: MemoryLayer,
    pub content: String,
    pub content_type: ContentType,
    pub source: MemorySource,
    pub scope: MemoryScope,
    pub tags: Vec<String>,
    pub project: Option<String>,
    pub strength: Measure,
    pub valence: Measure,
    /// Generated, not observed.
    pub imagined: bool,
    /// Confirmed; ends quarantine.
    pub grounded: bool,
    pub privacy_level: PrivacyLevel,
    pub evidence: Vec<EvidenceRef>,
    pub retrieval_count: u32,
    pub links_out: Vec<MemoryLink>,
    pub created_at: Timestamp,
    pub last_retrieved: Option<Timestamp>,
    pub occurred_at: Option<Timestamp>,
    pub context: String,
}

/// What a memory entry says.
#[verifier::ext_equal]
pub struct EntryView {
    pub id: Seq<char>,
    pub layer: MemoryLayer,
    pub content: Seq<char>,
    pub content_type: ContentType,
    pub source: MemorySource,
    pub scope: MemoryScope,
    pub tags: Seq<Seq<char>>,
    pub project: Option<Seq<char>>,
    pub strength: Measure,
    pub valence: Measure,
    pub imagined: bool,
    pub grounded: bool,
    pub privacy_level: PrivacyLevel,
    pub evidence: Seq<EvidenceView>,
    pub retrieval_count: u32,
    pub links_out: Seq<LinkView>,
    pub created_at: Timestamp,
    pub last_retrieved: Option<Timestamp>,
    pub occurred_at: Option<Timestamp>,
    pub context: Seq<char>,
}

impl View for MemoryEntry {
    type V = EntryView;

    open spec fn view(&self) -> EntryView {
        EntryView {
            id: self.id@,
            layer: self.layer,
            content: self.content@,
            content_type: self.content_type,
            source: self.source,
            scope: self.scope,
            tags: texts(self.tags@),
            project: opt_text(self.project),
            strength: self.strength,
            valence: self.valence,
            imagined: self.imagined,
            grounded: self.grounded,
            privacy_level: self.privacy_level,
            evidence: evidence_views(self.evidence@),
            retrieval_count: self.retrieval_count,
            links_out: memory_link_views(self.links_out@),
            created_at: self.created_at,
            last_retrieved: self.last_retrieved,
            occurred_at: self.occurred_at,
            context: self.context@,
        }
    }
}

impl EntryView {
    /// A fresh memory entry.
    pub open spec fn fresh(
        id: Seq<char>,
        layer: MemoryLayer,
        content: Seq<char>,
        source: MemorySource,
        strength: Measure,
        imagined: bool,
        created_at: Timestamp,
    ) -> EntryView {
        EntryView {
            id,
            layer,
            content,
            content_type: ContentType::Text,
            source,
            scope: MemoryScope::Moment,
            tags: Seq::empty(),
            project: None,
            strength,
            valence: Measure { bits: ZERO },
            imagined,
            grounded: false,
            privacy_level: PrivacyLevel::CloudFirst,
            evidence: Seq::empty(),
            retrieval_count: 0,
            links_out: Seq::empty(),
            created_at,
            last_retrieved: None,
            occurred_at: None,
            context: "{}"@,
        }
    }

    /// A fresh episodic entry, of full strength.
    pub open spec fn episodic(
        id: Seq<char>,
        content: Seq<char>,
        source: MemorySource,
        created_at: Timestamp,
    ) -> EntryView {
        EntryView::fresh(
            id,
            MemoryLayer::Episodic,
            content,
            source,
            Measure { bits: ONE },
            false,
            created_at,
        )
    }

    /// A fresh imagined entry, of half strength.
    pub open spec fn imagination(
        id: Seq<char>,
        content: Seq<char>,
        created_at: Timestamp,
    ) -> EntryView {
        EntryView::fresh(
            id,
            MemoryLayer::Imagined,
            content,
            MemorySource::Imagined,
            Measure { bits: HALF },
            true,
            created_at,
        )
    }
}

impl MemoryEntry {
    fn fresh(
        id: MemoryId,
        layer: MemoryLayer,
        content: String,
        source: MemorySource,
        strength: Measure,
        imagined: bool,
        created_at: Timestamp,
    ) -> (r: Self)
        ensures
            r@ == EntryView::fresh(
                id@,
                layer,
                content@,
                source,
                strength,
                imagined,
                created_at,
            ),
    {
        let r = MemoryEntry {
            id,
            layer,
            content,
            content_type: ContentType::Text,
            source,
            scope: MemoryScope::Moment,
            tags: Vec::new(),
            project: None,
            strength,
            valence: Measure { bits: ZERO },
            imagined,
            grounded: false,
            privacy_level: PrivacyLevel::CloudFirst,
            evidence: Vec::new(),
            retrieval_count: 0,
            links_out: Vec::new(),
            created_at,
            last_retrieved: None,
            occurred_at: None,
            context: "{}".to_string(),
        };
        assert(texts(r.tags@) =~= Seq::empty());
        assert(evidence_views(r.evidence@) =~= Seq::empty());
        assert(memory_link_views(r.links_out@) =~= Seq::empty());
        r
    }

    /// A fresh episodic entry with a given identifier and a given time.
    pub fn episodic(
        id: MemoryId,
        content: String,
        source: MemorySource,
        created_at: Timestamp,
    ) -> (r: Self)
        ensures
            r@ == EntryView::episodic(id@, content@, source, created_at),
    {
        MemoryEntry::fresh(
            id,
            MemoryLayer::Episodic,
            content,
            source,
            Measure { bits: ONE },
            false,
            created_at,
        )
    }

    /// A fresh imagined entry with a given identifier and a given time.
    pub fn imagination(id: MemoryId, content: String, created_at: Timestamp) -> (r: Self)
        ensures
            r@ == EntryView::imagination(id@, content@, created_at),
    {
        MemoryEntry::fresh(
            id,
            MemoryLayer::Imagined,
            content,
            MemorySource::Imagined,
            Measure { bits: HALF },
            true,
            created_at,
        )
    }

    /// A fresh episodic entry, created now under a random identifier.
    pub fn new_episodic(content: String, source: MemorySource) -> (r: Self)
        ensures
            r@ == EntryView::episodic(r.id@, content@, source, r.created_at),
            memory_id_shape(r.id@),
            r.created_at.wf(),
    {
        let id = MemoryId::new();
        MemoryEntry::episodic(id, content, source, Timestamp::now())
    }

    /// A fresh imagined entry, created now under a random identifier.
    pub fn new_imagined(content: String) -> (r: Self)
        ensures
            r@ == EntryView::imagination(r.id@, content@, r.created_at),
            memory_id_shape(r.id@),
            r.created_at.wf(),
    {
        let id = MemoryId::new();
        MemoryEntry::imagination(id, content, Timestamp::now())
    }
}

/// The content type that a stored name stands for; text when it names none.
pub open spec fn content_type_of(s: Seq<char>) -> ContentType {
    if s == ContentType::Frames.name() {
        ContentType::Frames
    } else if s == ContentType::Conversation.name() {
        ContentType::Conversation
    } else if s == ContentType::Context.name() {
        ContentType::Context
    } else {
        ContentType::Text
    }
}

/// The scope that a stored name stands for; a moment when it names none.
pub open spec fn scope_of(s: Seq<char>) -> MemoryScope {
    if s == MemoryScope::Episode.name() {
        MemoryScope::Episode
    } else if s == MemoryScope::Narrative.name() {
        MemoryScope::Narrative
    } else if s == MemoryScope::Rule.name() {
        MemoryScope::Rule
    } else {
        MemoryScope::Moment
    }
}

fn read_content_type(s: &str) -> (r: ContentType)
    ensures
        r == content_type_of(s@),
{
    proof {
        ContentType::lemma_names_differ();
        assert(ContentType::Text.named(s@) <==> s@ == ContentType::Text.name());
        assert(ContentType::Frames.named(s@) <==> s@ == ContentType::Frames.name());
        assert(ContentType::Conversation.named(s@) <==> s@ == ContentType::Conversation.name());
        assert(ContentType::Context.named(s@) <==> s@ == ContentType::Context.name());
    }
    match ContentType::from_str(s) {
        Some(t) => t,
        None => ContentType::Text,
    }
}

fn read_scope(s: &str) -> (r: MemoryScope)
    ensures
        r == scope_of(s@),
{
    proof {
        MemoryScope::lemma_names_differ();
        assert(MemoryScope::Moment.named(s@) <==> s@ == MemoryScope::Moment.name());
        assert(MemoryScope::Episode.named(s@) <==> s@ == MemoryScope::Episode.name());
        assert(MemoryScope::Narrative.named(s@) <==> s@ == MemoryScope::Narrative.name());
        assert(MemoryScope::Rule.named(s@) <==> s@ == MemoryScope::Rule.name());
    }
    match MemoryScope::from_str(s) {
        Some(t) => t,
        None => MemoryScope::Moment,
    }
}

/// The memory entry that an engram is. The counter keeps its 32 bits.
pub open spec fn entry_of(e: EngramView) -> EntryView {
    EntryView {
        id: e.id,
        layer: memory_layer_of(e.layer),
        content: e.content,
        content_type: content_type_of(e.content_type),
        source: memory_source_of(e.source),
        scope: scope_of(e.scope),
        tags: e.tags,
        project: e.project,
        strength: e.strength,
        valence: e.valence,
        imagined: e.imagined,
        grounded: e.grounded,
        privacy_level: e.privacy_level,
        evidence: Seq::empty(),
        retrieval_count: e.retrievals as u32,
        links_out: e.links,
        created_at: e.created_at,
        last_retrieved: e.last_retrieved,
        occurred_at: e.occurred_at,
        context: e.context,
    }
}

/// The engram that a memory entry is. It counts as modified when it was created, and the evidence
/// is not part of it.
pub open spec fn engram_of(m: EntryView) -> EngramView {
    EngramView {
        id: m.id,
        layer: engram_layer_of(m.layer),
        source: engram_source_of(m.source),
        content: m.content,
        context: m.context,
        links: m.links_out,
        strength: m.strength,
        valence: m.valence,
        retrievals: m.retrieval_count as i32,
        imagined: m.imagined,
        grounded: m.grounded,
        created_at: m.created_at,
        modified_at: m.created_at,
        last_retrieved: m.last_retrieved,
        project: m.project,
        tags: m.tags,
        privacy_level: m.privacy_level,
        scope: m.scope.name(),
        content_type: m.content_type.name(),
        occurred_at: m.occurred_at,
    }
}

impl From<Engram> for MemoryEntry {
    fn from(e: Engram) -> (r: Self)
        ensures
            r@ == entry_of(e@),
    {
        let r = MemoryEntry {
            content_type: read_content_type(e.content_type.as_str()),
            scope: read_scope(e.scope.as_str()),
            links_out: to_memory_links(&e.links),
            id: MemoryId::from_string(e.id),
            layer: MemoryLayer::from(e.layer),
            content: e.content,
            source: MemorySource::from(e.source),
            tags: e.tags,
            project: e.project,
            strength: e.strength,
            valence: e.valence,
            imagined: e.imagined,
            grounded: e.grounded,
            privacy_level: e.privacy_level,
            evidence: Vec::new(),
            retrieval_count: e.retrievals as u32,
            created_at: e.created_at,
            last_retrieved: e.last_retrieved,
            occurred_at: e.occurred_at,
            context: e.context,
        };
        assert(evidence_views(r.evidence@) =~= Seq::empty());
        r
    }
}

impl FromSpecImpl<Engram> for MemoryEntry {
    open spec fn obeys_from_spec() -> bool {
        false
    }

    open spec fn from_spec(e: Engram) -> Self {
        arbitrary()
    }
}

fn read_engram_source(s: MemorySource) -> (r: EngramSource)
    ensures
        r == engram_source_of(s),
{
    let name = s.as_str();
    proof {
        assert(engram_source_of(s).name() == s.name());
        assert(engram_source_of(s).named(name@));
    }
    match EngramSource::from_str(name) {
        Some(v) => v,
        None => EngramSource::Interaction,
    }
}

impl From<MemoryEntry> for Engram {
    fn from(m: MemoryEntry) -> (r: Self)
        ensures
            r@ == engram_of(m@),
    {
        Engram {
            links: to_engram_links(&m.links_out),
            id: m.id.0,
            layer: memory_layer_to_engram_layer(m.layer),
            source: read_engram_source(m.source),
            content: m.content,
            context: m.context,
            strength: m.strength,
            valence: m.valence,
            retrievals: m.retrieval_count as i32,
            imagined: m.imagined,
            grounded: m.grounded,
            created_at: m.created_at,
            modified_at: m.created_at,
            last_retrieved: m.last_retrieved,
            project: m.project,
            tags: m.tags,
            privacy_level: m.privacy_level,
            scope: m.scope.as_str().to_string(),
            content_type: m.content_type.as_str().to_string(),
            occurred_at: m.occurred_at,
        }
    }
}

impl FromSpecImpl<MemoryEntry> for Engram {
    open spec fn obeys_from_spec() -> bool {
        false
    }

    open spec fn from_spec(m: MemoryEntry) -> Self {
        arbitrary()
    }
}

/// The memory entry that an engram is.
pub fn engram_to_memory_entry(e: Engram) -> (r: MemoryEntry)
    ensures
        r@ == entry_of(e@),
{
    MemoryEntry::from(e)
}

/// The engram that a memory entry is.
pub fn memory_entry_to_engram(m: MemoryEntry) -> (r: Engram)
    ensures
        r@ == engram_of(m@),
{
    Engram::from(m)
}

/// An engram that is made a memory entry and an engram again is unchanged, except that it counts
/// as modified when it was created, and that an unknown scope or content type has become the
/// default one.
pub proof fn law_engram_survives_the_round_trip(e: EngramView)
    ensures
        engram_of(entry_of(e)) == (EngramView {
            modified_at: e.created_at,
            scope: scope_of(e.scope).name(),
            content_type: content_type_of(e.content_type).name(),
            ..e
        }),
{
    let n = e.retrievals;
    assert((n as u32) as i32 == n) by (bit_vector);
}

/// A memory entry that is made an engram and a memory entry again is unchanged, except that its
/// evidence is gone.
pub proof fn law_entry_survives_the_round_trip(m: EntryView)
    ensures
        entry_of(engram_of(m)) == (EntryView { evidence: Seq::empty(), ..m }),
{
    let n = m.retrieval_count;
    assert((n as i32) as u32 == n) by (bit_vector);
    ContentType::lemma_names_differ();
    MemoryScope::lemma_names_differ();
    assert(m.content_type.named(m.content_type.name()));
    assert(m.scope.named(m.scope.name()));
    assert(content_type_of(m.content_type.name()).named(m.content_type.name()));
    assert(scope_of(m.scope.name()).named(m.scope.name()));
}

/// Memory layers and engram layers correspond one to one.
pub proof fn law_layers_correspond(e: EngramLayer, m: MemoryLayer)
    ensures
        engram_layer_of(memory_layer_of(e)) == e,
        memory_layer_of(engram_layer_of(m)) == m,
        memory_layer_of(e).name() == e.name(),
{
}

/// Memory sources and engram sources correspond one to one, by name.
pub proof fn law_sources_correspond(e: EngramSource, m: MemorySource)
    ensures
        engram_source_of(memory_source_of(e)) == e,
        memory_source_of(engram_source_of(m)) == m,
        memory_source_of(e).name() == e.name(),
{
}

/// An entry shows an engram as it is: what both have is the same in both.
pub proof fn law_entry_shows_the_engram(e: EngramView)
    ensures
        ({
            let m = entry_of(e);
            &&& m.id == e.id
            &&& m.content == e.content
            &&& m.tags == e.tags
            &&& m.project == e.project
            &&& m.strength == e.strength
            &&& m.valence == e.valence
            &&& m.imagined == e.imagined
            &&& m.grounded == e.grounded
            &&& m.privacy_level == e.privacy_level
            &&& e.retrievals >= 0 ==> m.retrieval_count == e.retrievals
            &&& m.links_out == e.links
            &&& m.created_at == e.created_at
            &&& m.last_retrieved == e.last_retrieved
            &&& m.occurred_at == e.occurred_at
            &&& m.context == e.context
            &&& m.layer.name() == e.layer.name()
            &&& m.source.name() == e.source.name()
            &&& m.evidence.len() == 0
            &&& m.scope == scope_of(e.scope)
            &&& m.content_type == content_type_of(e.content_type)
            &&& e.retrievals < 0 ==> m.retrieval_count == e.retrievals + 0x1_0000_0000
        }),
{
    let n = e.retrievals;
    assert(n < 0 ==> (n as u32) == n + 0x1_0000_0000) by (bit_vector);
}

/// An engram holds what the entry holds that it is made of.
pub proof fn law_engram_holds_the_entry(m: EntryView)
    ensures
        ({
            let e = engram_of(m);
            &&& e.id == m.id
            &&& e.content == m.content
            &&& e.tags == m.tags
            &&& e.project == m.project
            &&& e.strength == m.strength
            &&& e.valence == m.valence
            &&& e.imagined == m.imagined
            &&& e.grounded == m.grounded
            &&& e.privacy_level == m.privacy_level
            &&& m.retrieval_count <= i32::MAX ==> e.retrievals == m.retrieval_count
            &&& e.links == m.links_out
            &&& e.created_at == m.created_at
            &&& e.last_retrieved == m.last_retrieved
            &&& e.occurred_at == m.occurred_at
            &&& e.context == m.context
            &&& e.layer.name() == m.layer.name()
            &&& e.source.name() == m.source.name()
            &&& e.scope == m.scope.name()
            &&& e.content_type == m.content_type.name()
            &&& e.modified_at == m.created_at
            &&& m.retrieval_count > i32::MAX ==> e.retrievals == m.retrieval_count - 0x1_0000_0000
        }),
{
    let n = m.retrieval_count;
    assert(n > 0x7fff_ffff ==> (n as i32) == n - 0x1_0000_0000) by (bit_vector);
}

/// Scopes and types of content are found by their names; any other text is a moment and a text.
pub proof fn law_scopes_and_types_are_found_by_name(s: Seq<char>)
    ensures
        scope_of(s) == if s == "episode"@ {
            MemoryScope::Episode
        } else if s == "narrative"@ {
            MemoryScope::Narrative
        } else if s == "rule"@ {
            MemoryScope::Rule
        } else {
            MemoryScope::Moment
        },
        content_type_of(s) == if s == "frames"@ {
            ContentType::Frames
        } else if s == "conversation"@ {
            ContentType::Conversation
        } else if s == "context"@ {
            ContentType::Context
        } else {
            ContentType::Text
        },
        MemoryScope::Moment.name() == "moment"@,
        ContentType::Text.name() == "text"@,
{
}

/// A new episode is of full strength, an imagined memory of half; neither was retrieved, linked,
/// tagged or grounded yet, and both hold what they were made with.
pub proof fn law_new_entries_hold_what_they_were_made_with(
    id: Seq<char>,
    content: Seq<char>,
    source: MemorySource,
    created_at: Timestamp,
)
    ensures
        ({
            let e = EntryView::episodic(id, content, source, created_at);
            let i = EntryView::imagination(id, content, created_at);
            &&& e.id == id && i.id == id
            &&& e.content == content && i.content == content
            &&& e.created_at == created_at && i.created_at == created_at
            &&& e.layer is Episodic && i.layer is Imagined
            &&& e.source == source && i.source is Imagined
            &&& e.strength.bits == 0x3ff0_0000_0000_0000 && i.strength.bits
                == 0x3fe0_0000_0000_0000
            &&& e.valence.bits == 0 && i.valence.bits == 0
            &&& !e.imagined && i.imagined
            &&& !e.grounded && !i.grounded
            &&& e.retrieval_count == 0 && i.retrieval_count == 0
            &&& e.last_retrieved is None && i.last_retrieved is None
            &&& e.occurred_at is None && i.occurred_at is None
            &&& e.project is None && i.project is None
            &&& e.tags.len() == 0 && i.tags.len() == 0
            &&& e.links_out.len() == 0 && i.links_out.len() == 0
            &&& e.evidence.len() == 0 && i.evidence.len() == 0
            &&& e.privacy_level is CloudFirst && i.privacy_level is CloudFirst
            &&& e.scope is Moment && i.scope is Moment
            &&& e.content_type is Text && i.content_type is Text
            &&& e.context == "{}"@ && i.context == "{}"@
        }),
{
}

/// What is said of a link of a memory is said of its fields.
pub proof fn law_memory_link_is_seen_as_it_is(x: MemoryLink)
    ensures
        x@.target_id == x.target_id@,
        x@.weight == x.weight,
        x@.link_type == x.link_type,
{
}

/// What is said of an entry is said of its fields.
pub proof fn law_entry_is_seen_as_it_is(x: MemoryEntry)
    ensures
        x@.id == x.id@,
        x@.content == x.content@,
        x@.context == x.context@,
        x@.layer == x.layer,
        x@.content_type == x.content_type,
        x@.source == x.source,
        x@.scope == x.scope,
        x@.strength == x.strength,
        x@.valence == x.valence,
        x@.imagined == x.imagined,
        x@.grounded == x.grounded,
        x@.privacy_level == x.privacy_level,
        x@.retrieval_count == x.retrieval_count,
        x@.created_at == x.created_at,
        x@.last_retrieved == x.last_retrieved,
        x@.occurred_at == x.occurred_at,
        (x@.project is Some) == (x.project is Some),
        x.project is Some ==> x@.project->0 == (x.project->0)@,
        x@.tags.len() == x.tags@.len(),
        forall|i: int| 0 <= i < x.tags@.len() ==> #[trigger] x@.tags[i] == x.tags@[i]@,
        x@.evidence.len() == x.evidence@.len(),
        forall|i: int| 0 <= i < x.evidence@.len() ==> #[trigger] x@.evidence[i] == x.evidence@[i]@,
        x@.links_out.len() == x.links_out@.len(),
        forall|i: int| 0 <= i < x.links_out@.len() ==> #[trigger] x@.links_out[i] == x.links_out@[i]@,
{
}

} // verus!
