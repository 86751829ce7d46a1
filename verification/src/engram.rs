//! Core engram data types.
use crate::ids::{new_uuid, random_uuid};
use crate::measure::{Measure, HALF, ONE, ZERO};
use crate::text::{clone_opt, clone_texts, opt_text, text_eq, texts};
use crate::time::Timestamp;
use vstd::prelude::*;

verus! {

/// Privacy level for engram storage and retrieval.
#[derive(Debug, Clone, Copy, PartialEq, Eq, Structural)]
pub enum PrivacyLevel {
    /// Never leaves the device.
    StrictLocal,
    /// Can be used with local models.
    Hybrid,
    /// Can be sent to cloud models.
    CloudFirst,
    /// Managed by an organisation, isolated per tenant.
    Enterprise,
}

impl Default for PrivacyLevel {
    fn default() -> (r: Self)
        ensures
            r == PrivacyLevel::StrictLocal,
    {
        PrivacyLevel::StrictLocal
    }
}

impl PrivacyLevel {
    /// The name under which the value is stored.
    pub open spec fn name(self) -> Seq<char> {
        match self {
            PrivacyLevel::StrictLocal => "strict_local"@,
            PrivacyLevel::Hybrid => "hybrid"@,
            PrivacyLevel::CloudFirst => "cloud_first"@,
            PrivacyLevel::Enterprise => "enterprise"@,
        }
    }

    /// Whether a text names the value.
    pub open spec fn named(self, s: Seq<char>) -> bool {
        s == self.name()
    }

    proof fn lemma_names_differ()
        ensures
            forall|a: Self, b: Self, s: Seq<char>|
                #[trigger] a.named(s) && #[trigger] b.named(s) ==> a == b,
    {
        reveal_strlit("strict_local");
        reveal_strlit("hybrid");
        reveal_strlit("cloud_first");
        reveal_strlit("enterprise");
        assert("strict_local"@[0] == 's');
        assert("hybrid"@[0] == 'h');
        assert("cloud_first"@[0] == 'c');
        assert("enterprise"@[0] == 'e');
    }

    /// A text names at most one value, and every value is named by its own name: what is written
    /// with `as_str` reads back as the same value.
    pub proof fn law_names_are_unambiguous(a: Self, b: Self, s: Seq<char>)
        requires
            a.named(s),
            b.named(s),
        ensures
            a == b,
            a.named(a.name()),
    {
        Self::lemma_names_differ();
    }

    /// The name under which the value is stored.
    pub fn as_str(&self) -> (r: &'static str)
        ensures
            r@ == self.name(),
    {
        match self {
            PrivacyLevel::StrictLocal => "strict_local",
            PrivacyLevel::Hybrid => "hybrid",
            PrivacyLevel::CloudFirst => "cloud_first",
            PrivacyLevel::Enterprise => "enterprise",
        }
    }

    /// The value that a text names, if it names one.
    pub fn from_str(s: &str) -> (r: Option<Self>)
        ensures
            forall|v: Self| #[trigger] v.named(s@) <==> r == Some(v),
    {
        proof {
            Self::lemma_names_differ();
        }
        if text_eq(s, "strict_local") {
            proof {
                assert(PrivacyLevel::StrictLocal.named(s@));
            }
            Some(PrivacyLevel::StrictLocal)
        } else if text_eq(s, "hybrid") {
            proof {
                assert(PrivacyLevel::Hybrid.named(s@));
            }
            Some(PrivacyLevel::Hybrid)
        } else if text_eq(s, "cloud_first") {
            proof {
                assert(PrivacyLevel::CloudFirst.named(s@));
            }
            Some(PrivacyLevel::CloudFirst)
        } else if text_eq(s, "enterprise") {
            proof {
                assert(PrivacyLevel::Enterprise.named(s@));
            }
            Some(PrivacyLevel::Enterprise)
        } else {
            None
        }
    }
}

/// Engram layer types.
#[derive(Debug, Clone, Copy, PartialEq, Eq, Structural)]
pub enum EngramLayer {
    Episodic,
    Semantic,
    Imagined,
}

impl EngramLayer {
    /// The name under which the value is stored.
    pub open spec fn name(self) -> Seq<char> {
        match self {
            EngramLayer::Episodic => "episodic"@,
            EngramLayer::Semantic => "semantic"@,
            EngramLayer::Imagined => "imagined"@,
        }
    }

    /// Whether a text names the value.
    pub open spec fn named(self, s: Seq<char>) -> bool {
        s == self.name()
    }

    proof fn lemma_names_differ()
        ensures
            forall|a: Self, b: Self, s: Seq<char>|
                #[trigger] a.named(s) && #[trigger] b.named(s) ==> a == b,
    {
        reveal_strlit("episodic");
        reveal_strlit("semantic");
        reveal_strlit("imagined");
        assert("episodic"@[0] == 'e');
        assert("semantic"@[0] == 's');
        assert("imagined"@[0] == 'i');
    }

    /// A text names at most one value, and every value is named by its own name: what is written
    /// with `as_str` reads back as the same value.
    pub proof fn law_names_are_unambiguous(a: Self, b: Self, s: Seq<char>)
        requires
            a.named(s),
            b.named(s),
        ensures
            a == b,
            a.named(a.name()),
    {
        Self::lemma_names_differ();
    }

    /// The name under which the value is stored.
    pub fn as_str(&self) -> (r: &'static str)
        ensures
            r@ == self.name(),
    {
        match self {
            EngramLayer::Episodic => "episodic",
            EngramLayer::Semantic => "semantic",
            EngramLayer::Imagined => "imagined",
        }
    }

    /// The value that a text names, if it names one.
    pub fn from_str(s: &str) -> (r: Option<Self>)
        ensures
            forall|v: Self| #[trigger] v.named(s@) <==> r == Some(v),
    {
        proof {
            Self::lemma_names_differ();
        }
        if text_eq(s, "episodic") {
            proof {
                assert(EngramLayer::Episodic.named(s@));
            }
            Some(EngramLayer::Episodic)
        } else if text_eq(s, "semantic") {
            proof {
                assert(EngramLayer::Semantic.named(s@));
            }
            Some(EngramLayer::Semantic)
        } else if text_eq(s, "imagined") {
            proof {
                assert(EngramLayer::Imagined.named(s@));
            }
            Some(EngramLayer::Imagined)
        } else {
            None
        }
    }
}

/// Where an engram came from.
#[derive(Debug, Clone, Copy, PartialEq, Eq, Structural)]
pub enum EngramSource {
    Interaction,
    Sensor,
    Consolidation,
    Imagined,
    Chat,
    Slack,
    Discord,
    Telegram,
    Window,
    Mic,
    Agent,
    Research,
    System,
    Observation,
    /// Session-level summary written by an AI agent.
    AiSession,
    /// One tool call captured during an AI session.
    AiTool,
}

impl EngramSource {
    /// The name under which the value is stored.
    pub open spec fn name(self) -> Seq<char> {
        match self {
            EngramSource::Interaction => "interaction"@,
            EngramSource::Sensor => "sensor"@,
            EngramSource::Consolidation => "consolidation"@,
            EngramSource::Imagined => "imagined"@,
            EngramSource::Chat => "chat"@,
            EngramSource::Slack => "slack"@,
            EngramSource::Discord => "discord"@,
            EngramSource::Telegram => "telegram"@,
            EngramSource::Window => "window"@,
            EngramSource::Mic => "mic"@,
            EngramSource::Agent => "agent"@,
            EngramSource::Research => "research"@,
            EngramSource::System => "system"@,
            EngramSource::Observation => "observation"@,
            EngramSource::AiSession => "ai-session"@,
            EngramSource::AiTool => "ai-tool"@,
        }
    }

    /// Whether a text names the value: by its name, or, for `System`, by its older one.
    pub open spec fn named(self, s: Seq<char>) -> bool {
        s == self.name() || (self == EngramSource::System && s == "infinity_core"@)
    }

    proof fn lemma_names_differ()
        ensures
            forall|a: Self, b: Self, s: Seq<char>|
                #[trigger] a.named(s) && #[trigger] b.named(s) ==> a == b,
    {
        reveal_strlit("interaction");
        reveal_strlit("sensor");
        reveal_strlit("consolidation");
        reveal_strlit("imagined");
        reveal_strlit("chat");
        reveal_strlit("slack");
        reveal_strlit("discord");
        reveal_strlit("telegram");
        reveal_strlit("window");
        reveal_strlit("mic");
        reveal_strlit("agent");
        reveal_strlit("research");
        reveal_strlit("system");
        reveal_strlit("observation");
        reveal_strlit("ai-session");
        reveal_strlit("ai-tool");
        reveal_strlit("infinity_core");
        assert("interaction"@[0] == 'i' && "interaction"@[1] == 'n' && "interaction"@[2] == 't');
        assert("sensor"@[0] == 's' && "sensor"@[1] == 'e');
        assert("consolidation"@[0] == 'c' && "consolidation"@[1] == 'o');
        assert("imagined"@[0] == 'i' && "imagined"@[1] == 'm');
        assert("chat"@[0] == 'c' && "chat"@[1] == 'h');
        assert("slack"@[0] == 's' && "slack"@[1] == 'l');
        assert("discord"@[0] == 'd');
        assert("telegram"@[0] == 't');
        assert("window"@[0] == 'w');
        assert("mic"@[0] == 'm');
        assert("agent"@[0] == 'a' && "agent"@[1] == 'g');
        assert("research"@[0] == 'r');
        assert("system"@[0] == 's' && "system"@[1] == 'y');
        assert("observation"@[0] == 'o');
        assert("ai-session"@[0] == 'a' && "ai-session"@[1] == 'i' && "ai-session"@[3] == 's');
        assert("ai-tool"@[0] == 'a' && "ai-tool"@[1] == 'i' && "ai-tool"@[3] == 't');
        assert("infinity_core"@[0] == 'i' && "infinity_core"@[1] == 'n' && "infinity_core"@[2] == 'f');
    }

    /// A text names at most one value, and every value is named by its own name: what is written
    /// with `as_str` reads back as the same value.
    pub proof fn law_names_are_unambiguous(a: Self, b: Self, s: Seq<char>)
        requires
            a.named(s),
            b.named(s),
        ensures
            a == b,
            a.named(a.name()),
    {
        Self::lemma_names_differ();
    }

    /// The name under which the value is stored.
    pub fn as_str(&self) -> (r: &'static str)
        ensures
            r@ == self.name(),
    {
        match self {
            EngramSource::Interaction => "interaction",
            EngramSource::Sensor => "sensor",
            EngramSource::Consolidation => "consolidation",
            EngramSource::Imagined => "imagined",
            EngramSource::Chat => "chat",
            EngramSource::Slack => "slack",
            EngramSource::Discord => "discord",
            EngramSource::Telegram => "telegram",
            EngramSource::Window => "window",
            EngramSource::Mic => "mic",
            EngramSource::Agent => "agent",
            EngramSource::Research => "research",
            EngramSource::System => "system",
            EngramSource::Observation => "observation",
            EngramSource::AiSession => "ai-session",
            EngramSource::AiTool => "ai-tool",
        }
    }

    /// The value that a text names, if it names one.
    pub fn from_str(s: &str) -> (r: Option<Self>)
        ensures
            forall|v: Self| #[trigger] v.named(s@) <==> r == Some(v),
    {
        proof {
            Self::lemma_names_differ();
        }
        if text_eq(s, "interaction") {
            proof {
                assert(EngramSource::Interaction.named(s@));
            }
            Some(EngramSource::Interaction)
        } else if text_eq(s, "sensor") {
            proof {
                assert(EngramSource::Sensor.named(s@));
            }
            Some(EngramSource::Sensor)
        } else if text_eq(s, "consolidation") {
            proof {
                assert(EngramSource::Consolidation.named(s@));
            }
            Some(EngramSource::Consolidation)
        } else if text_eq(s, "imagined") {
            proof {
                assert(EngramSource::Imagined.named(s@));
            }
            Some(EngramSource::Imagined)
        } else if text_eq(s, "chat") {
            proof {
                assert(EngramSource::Chat.named(s@));
            }
            Some(EngramSource::Chat)
        } else if text_eq(s, "slack") {
            proof {
                assert(EngramSource::Slack.named(s@));
            }
            Some(EngramSource::Slack)
        } else if text_eq(s, "discord") {
            proof {
                assert(EngramSource::Discord.named(s@));
            }
            Some(EngramSource::Discord)
        } else if text_eq(s, "telegram") {
            proof {
                assert(EngramSource::Telegram.named(s@));
            }
            Some(EngramSource::Telegram)
        } else if text_eq(s, "window") {
            proof {
                assert(EngramSource::Window.named(s@));
            }
            Some(EngramSource::Window)
        } else if text_eq(s, "mic") {
            proof {
                assert(EngramSource::Mic.named(s@));
            }
            Some(EngramSource::Mic)
        } else if text_eq(s, "agent") {
            proof {
                assert(EngramSource::Agent.named(s@));
            }
            Some(EngramSource::Agent)
        } else if text_eq(s, "research") {
            proof {
                assert(EngramSource::Research.named(s@));
            }
            Some(EngramSource::Research)
        } else if text_eq(s, "system") || text_eq(s, "infinity_core") {
            proof {
                assert(EngramSource::System.named(s@));
            }
            Some(EngramSource::System)
        } else if text_eq(s, "observation") {
            proof {
                assert(EngramSource::Observation.named(s@));
            }
            Some(EngramSource::Observation)
        } else if text_eq(s, "ai-session") {
            proof {
                assert(EngramSource::AiSession.named(s@));
            }
            Some(EngramSource::AiSession)
        } else if text_eq(s, "ai-tool") {
            proof {
                assert(EngramSource::AiTool.named(s@));
            }
            Some(EngramSource::AiTool)
        } else {
            None
        }
    }
}

/// How one engram is linked to another.
#[derive(Debug, Clone, Copy, PartialEq, Eq, Structural)]
pub enum LinkType {
    Associative,
    Causal,
    Analogical,
    Temporal,
}

impl LinkType {
    /// The name under which the value is stored.
    pub open spec fn name(self) -> Seq<char> {
        match self {
            LinkType::Associative => "associative"@,
            LinkType::Causal => "causal"@,
            LinkType::Analogical => "analogical"@,
            LinkType::Temporal => "temporal"@,
        }
    }

    /// Whether a text names the value.
    pub open spec fn named(self, s: Seq<char>) -> bool {
        s == self.name()
    }

    proof fn lemma_names_differ()
        ensures
            forall|a: Self, b: Self, s: Seq<char>|
                #[trigger] a.named(s) && #[trigger] b.named(s) ==> a == b,
    {
        reveal_strlit("associative");
        reveal_strlit("causal");
        reveal_strlit("analogical");
        reveal_strlit("temporal");
        assert("associative"@[0] == 'a' && "associative"@[1] == 's');
        assert("causal"@[0] == 'c');
        assert("analogical"@[0] == 'a' && "analogical"@[1] == 'n');
        assert("temporal"@[0] == 't');
    }

    /// A text names at most one value, and every value is named by its own name: what is written
    /// with `as_str` reads back as the same value.
    pub proof fn law_names_are_unambiguous(a: Self, b: Self, s: Seq<char>)
        requires
            a.named(s),
            b.named(s),
        ensures
            a == b,
            a.named(a.name()),
    {
        Self::lemma_names_differ();
    }

    /// The name under which the value is stored.
    pub fn as_str(&self) -> (r: &'static str)
        ensures
            r@ == self.name(),
    {
        match self {
            LinkType::Associative => "associative",
            LinkType::Causal => "causal",
            LinkType::Analogical => "analogical",
            LinkType::Temporal => "temporal",
        }
    }

    /// The value that a text names, if it names one.
    pub fn from_str(s: &str) -> (r: Option<Self>)
        ensures
            forall|v: Self| #[trigger] v.named(s@) <==> r == Some(v),
    {
        proof {
            Self::lemma_names_differ();
        }
        if text_eq(s, "associative") {
            proof {
                assert(LinkType::Associative.named(s@));
            }
            Some(LinkType::Associative)
        } else if text_eq(s, "causal") {
            proof {
                assert(LinkType::Causal.named(s@));
            }
            Some(LinkType::Causal)
        } else if text_eq(s, "analogical") {
            proof {
                assert(LinkType::Analogical.named(s@));
            }
            Some(LinkType::Analogical)
        } else if text_eq(s, "temporal") {
            proof {
                assert(LinkType::Temporal.named(s@));
            }
            Some(LinkType::Temporal)
        } else {
            None
        }
    }
}
/// The state of a goal.
#[derive(Debug, Clone, Copy, PartialEq, Eq, Structural)]
pub enum GoalStatus {
    Active,
    Achieved,
    Released,
}

/// Link between two engrams.
#[derive(Debug)]
pub struct EngramLink {
    pub target_id: String,
    pub weight: Measure,
    pub link_type: LinkType,
}

/// What a link says.
#[verifier::ext_equal]
pub struct LinkView {
    pub target_id: Seq<char>,
    pub weight: Measure,
    pub link_type: LinkType,
}

impl View for EngramLink {
    type V = LinkView;

    open spec fn view(&self) -> LinkView {
        LinkView { target_id: self.target_id@, weight: self.weight, link_type: self.link_type }
    }
}

impl Clone for EngramLink {
    fn clone(&self) -> (r: Self)
        ensures
            r@ == self@,
    {
        EngramLink {
            target_id: self.target_id.clone(),
            weight: self.weight,
            link_type: self.link_type,
        }
    }
}

/// What a list of links says.
pub open spec fn link_views(v: Seq<EngramLink>) -> Seq<LinkView> {
    v.map_values(|l: EngramLink| l@)
}

/// A copy of a list of links.
pub fn clone_links(list: &Vec<EngramLink>) -> (r: Vec<EngramLink>)
    ensures
        link_views(r@) == link_views(list@),
{
    let mut out: Vec<EngramLink> = Vec::new();
    let mut i: usize = 0;
    while i < list.len()
        invariant
            i <= list@.len(),
            out@.len() == i,
            forall|j: int| 0 <= j < i ==> #[trigger] out@[j]@ == list@[j]@,
        decreases list@.len() - i,
    {
        out.push(list[i].clone());
        i += 1;
    }
    assert(link_views(out@) =~= link_views(list@));
    out
}

/// A single engram: the unit of persistent memory. `context` is a JSON text.
#[derive(Debug)]
pub struct Engram {
    pub id: String,
    pub layer: EngramLayer,
    pub source: EngramSource,
    pub content: String,
    pub context: String,
    pub links: Vec<EngramLink>,
    pub strength: Measure,
    pub valence: Measure,
    pub retrievals: i32,
    pub imagined: bool,
    pub grounded: bool,
    pub created_at: Timestamp,
    /// When the engram last changed (content, grounding, links). Reads do not move it.
    pub modified_at: Timestamp,
    pub last_retrieved: Option<Timestamp>,
    pub project: Option<String>,
    pub tags: Vec<String>,
    pub privacy_level: PrivacyLevel,
    /// Moment, episode, narrative or rule.
    pub scope: String,
    /// Text, frames, conversation or context.
    pub content_type: String,
    /// When the event happened, which may differ from `created_at`.
    pub occurred_at: Option<Timestamp>,
}

/// What an engram says.
#[verifier::ext_equal]
pub struct EngramView {
    pub id: Seq<char>,
    pub layer: EngramLayer,
    pub source: EngramSource,
    pub content: Seq<char>,
    pub context: Seq<char>,
    pub links: Seq<LinkView>,
    pub strength: Measure,
    pub valence: Measure,
    pub retrievals: i32,
    pub imagined: bool,
    pub grounded: bool,
    pub created_at: Timestamp,
    pub modified_at: Timestamp,
    pub last_retrieved: Option<Timestamp>,
    pub project: Option<Seq<char>>,
    pub tags: Seq<Seq<char>>,
    pub privacy_level: PrivacyLevel,
    pub scope: Seq<char>,
    pub content_type: Seq<char>,
    pub occurred_at: Option<Timestamp>,
}

impl View for Engram {
    type V = EngramView;

    open spec fn view(&self) -> EngramView {
        EngramView {
            id: self.id@,
            layer: self.layer,
            source: self.source,
            content: self.content@,
            context: self.context@,
            links: link_views(self.links@),
            strength: self.strength,
            valence: self.valence,
            retrievals: self.retrievals,
            imagined: self.imagined,
            grounded: self.grounded,
            created_at: self.created_at,
            modified_at: self.modified_at,
            last_retrieved: self.last_retrieved,
            project: opt_text(self.project),
            tags: texts(self.tags@),
            privacy_level: self.privacy_level,
            scope: self.scope@,
            content_type: self.content_type@,
            occurred_at: self.occurred_at,
        }
    }
}

impl Clone for Engram {
    fn clone(&self) -> (r: Self)
        ensures
            r@ == self@,
    {
        Engram {
            id: self.id.clone(),
            layer: self.layer,
            source: self.source,
            content: self.content.clone(),
            context: self.context.clone(),
            links: clone_links(&self.links),
            strength: self.strength,
            valence: self.valence,
            retrievals: self.retrievals,
            imagined: self.imagined,
            grounded: self.grounded,
            created_at: self.created_at,
            modified_at: self.modified_at,
            last_retrieved: self.last_retrieved,
            project: clone_opt(&self.project),
            tags: clone_texts(&self.tags),
            privacy_level: self.privacy_level,
            scope: self.scope.clone(),
            content_type: self.content_type.clone(),
            occurred_at: self.occurred_at,
        }
    }
}

impl EngramView {
    /// Whether the engram's points in time lie in the calendar.
    pub open spec fn wf(self) -> bool {
        &&& self.created_at.wf()
        &&& self.modified_at.wf()
        &&& self.last_retrieved matches Some(t) ==> t.wf()
        &&& self.occurred_at matches Some(t) ==> t.wf()
    }

    /// Whether the engram is quarantined: imagined and not grounded.
    pub open spec fn quarantined(self) -> bool {
        self.imagined && !self.grounded
    }

    /// A fresh engram.
    pub open spec fn fresh(
        id: Seq<char>,
        layer: EngramLayer,
        source: EngramSource,
        content: Seq<char>,
        context: Seq<char>,
        strength: Measure,
        imagined: bool,
        created_at: Timestamp,
        modified_at: Timestamp,
    ) -> EngramView {
        EngramView {
            id,
            layer,
            source,
            content,
            context,
            links: Seq::empty(),
            strength,
            valence: Measure { bits: ZERO },
            retrievals: 0,
            imagined,
            grounded: false,
            created_at,
            modified_at,
            last_retrieved: None,
            project: None,
            tags: Seq::empty(),
            privacy_level: PrivacyLevel::CloudFirst,
            scope: "moment"@,
            content_type: "text"@,
            occurred_at: None,
        }
    }

    /// A fresh episodic engram, of full strength.
    pub open spec fn episodic(
        id: Seq<char>,
        content: Seq<char>,
        source: EngramSource,
        context: Seq<char>,
        created_at: Timestamp,
        modified_at: Timestamp,
    ) -> EngramView {
        EngramView::fresh(
            id,
            EngramLayer::Episodic,
            source,
            content,
            context,
            Measure { bits: ONE },
            false,
            created_at,
            modified_at,
        )
    }

    /// A fresh imagined engram, of half strength and quarantined.
    pub open spec fn imagination(
        id: Seq<char>,
        content: Seq<char>,
        context: Seq<char>,
        created_at: Timestamp,
        modified_at: Timestamp,
    ) -> EngramView {
        EngramView::fresh(
            id,
            EngramLayer::Imagined,
            EngramSource::Imagined,
            content,
            context,
            Measure { bits: HALF },
            true,
            created_at,
            modified_at,
        )
    }
}

impl Engram {
    /// Whether the engram's points in time lie in the calendar.
    pub fn is_wf(&self) -> (r: bool)
        ensures
            r == self@.wf(),
    {
        let retrieved = match self.last_retrieved {
            Some(t) => t.is_wf(),
            None => true,
        };
        let occurred = match self.occurred_at {
            Some(t) => t.is_wf(),
            None => true,
        };
        self.created_at.is_wf() && self.modified_at.is_wf() && retrieved && occurred
    }

    fn fresh(
        id: String,
        layer: EngramLayer,
        source: EngramSource,
        content: String,
        context: String,
        strength: Measure,
        imagined: bool,
        created_at: Timestamp,
        modified_at: Timestamp,
    ) -> (r: Engram)
        ensures
            r@ == EngramView::fresh(
                id@,
                layer,
                source,
                content@,
                context@,
                strength,
                imagined,
                created_at,
                modified_at,
            ),
    {
        let r = Engram {
            id,
            layer,
            source,
            content,
            context,
            links: Vec::new(),
            strength,
            valence: Measure { bits: ZERO },
            retrievals: 0,
            imagined,
            grounded: false,
            created_at,
            modified_at,
            last_retrieved: None,
            project: None,
            tags: Vec::new(),
            privacy_level: PrivacyLevel::CloudFirst,
            scope: "moment".to_string(),
            content_type: "text".to_string(),
            occurred_at: None,
        };
        assert(link_views(r.links@) =~= Seq::empty());
        assert(texts(r.tags@) =~= Seq::empty());
        r
    }

    /// A fresh episodic engram with a given identifier and given times.
    pub fn episodic(
        id: String,
        content: String,
        source: EngramSource,
        context: String,
        created_at: Timestamp,
        modified_at: Timestamp,
    ) -> (r: Engram)
        ensures
            r@ == EngramView::episodic(id@, content@, source, context@, created_at, modified_at),
    {
        Engram::fresh(
            id,
            EngramLayer::Episodic,
            source,
            content,
            context,
            Measure { bits: ONE },
            false,
            created_at,
            modified_at,
        )
    }

    /// A fresh imagined engram with a given identifier and given times.
    pub fn imagination(
        id: String,
        content: String,
        context: String,
        created_at: Timestamp,
        modified_at: Timestamp,
    ) -> (r: Engram)
        ensures
            r@ == EngramView::imagination(id@, content@, context@, created_at, modified_at),
    {
        Engram::fresh(
            id,
            EngramLayer::Imagined,
            EngramSource::Imagined,
            content,
            context,
            Measure { bits: HALF },
            true,
            created_at,
            modified_at,
        )
    }

    /// Whether the engram is quarantined.
    pub fn is_quarantined(&self) -> (r: bool)
        ensures
            r == self@.quarantined(),
    {
        self.imagined && !self.grounded
    }

    /// A fresh episodic engram, created now; its identifier is a random UUID.
    pub fn new_episodic(content: String, source: EngramSource, context: String) -> (r: Engram)
        ensures
            random_uuid(r@.id),
            r@ == EngramView::episodic(
                r@.id,
                content@,
                source,
                context@,
                r.created_at,
                r.modified_at,
            ),
            r@.wf(),
    {
        let id = new_uuid();
        let created_at = Timestamp::now();
        let modified_at = default_modified_at();
        Engram::episodic(id, content, source, context, created_at, modified_at)
    }

    /// A fresh imagined engram, created now; its identifier is a random UUID.
    pub fn new_imagined(content: String, context: String) -> (r: Engram)
        ensures
            random_uuid(r@.id),
            r@ == EngramView::imagination(
                r@.id,
                content@,
                context@,
                r.created_at,
                r.modified_at,
            ),
            r@.wf(),
    {
        let id = new_uuid();
        let created_at = Timestamp::now();
        let modified_at = default_modified_at();
        Engram::imagination(id, content, context, created_at, modified_at)
    }
}

/// When an engram counts as modified if nothing says so: now.
pub fn default_modified_at() -> (r: Timestamp)
    ensures
        r.wf(),
        r.secs >= 0,
        r.nanos < 1_000_000_000,
{
    Timestamp::now()
}

/// The bits of 0.9.
pub const NINE_TENTHS: u64 = 0x3fec_cccc_cccc_cccd;

/// The bits of 0.85.
pub const SEVENTEEN_TWENTIETHS: u64 = 0x3feb_3333_3333_3333;

/// The bits of 0.8.
pub const FOUR_FIFTHS: u64 = 0x3fe9_9999_9999_999a;

/// The bits of 0.75.
pub const THREE_QUARTERS: u64 = 0x3fe8_0000_0000_0000;

/// The strengths of a character.
#[derive(Debug, Clone, Copy, PartialEq, Eq, Structural)]
pub struct CharacterTopology {
    pub curiosity: Measure,
    pub creativity: Measure,
    pub wisdom: Measure,
    pub kindness: Measure,
    pub courage: Measure,
    pub integrity: Measure,
    pub beauty: Measure,
    pub hope: Measure,
    pub perseverance: Measure,
}

impl Default for CharacterTopology {
    fn default() -> (r: Self)
        ensures
            r.curiosity.bits == NINE_TENTHS,
            r.creativity.bits == SEVENTEEN_TWENTIETHS,
            r.wisdom.bits == FOUR_FIFTHS,
            r.kindness.bits == SEVENTEEN_TWENTIETHS,
            r.courage.bits == THREE_QUARTERS,
            r.integrity.bits == NINE_TENTHS,
            r.beauty.bits == FOUR_FIFTHS,
            r.hope.bits == SEVENTEEN_TWENTIETHS,
            r.perseverance.bits == FOUR_FIFTHS,
    {
        CharacterTopology {
            curiosity: Measure { bits: NINE_TENTHS },
            creativity: Measure { bits: SEVENTEEN_TWENTIETHS },
            wisdom: Measure { bits: FOUR_FIFTHS },
            kindness: Measure { bits: SEVENTEEN_TWENTIETHS },
            courage: Measure { bits: THREE_QUARTERS },
            integrity: Measure { bits: NINE_TENTHS },
            beauty: Measure { bits: FOUR_FIFTHS },
            hope: Measure { bits: SEVENTEEN_TWENTIETHS },
            perseverance: Measure { bits: FOUR_FIFTHS },
        }
    }
}

/// The state of the vault's character.
#[derive(Debug)]
pub struct CoherenceState {
    pub id: i32,
    pub baseline_valence: Measure,
    pub character_strengths: CharacterTopology,
    pub purpose_vector: Vec<Measure>,
    pub last_hygiene_daily: Option<Timestamp>,
    pub last_hygiene_weekly: Option<Timestamp>,
    pub drift_score: Measure,
    pub updated_at: Timestamp,
}

/// A goal.
#[derive(Debug)]
pub struct Goal {
    pub id: String,
    pub description: String,
    pub pathways: Vec<String>,
    pub agency_score: Measure,
    pub created_at: Timestamp,
    pub status: GoalStatus,
}

/// A past consolidation.
#[derive(Debug)]
pub struct ConsolidationRun {
    pub id: String,
    pub run_at: Timestamp,
    pub episodes_processed: Option<i32>,
    pub semantics_created: Option<i32>,
    pub engrams_decayed: Option<i32>,
    pub notes: Option<String>,
}

/// A past consolidation, as seen in contracts.
#[verifier::ext_equal]
pub struct RunView {
    pub id: Seq<char>,
    pub run_at: Timestamp,
    pub episodes_processed: Option<i32>,
    pub semantics_created: Option<i32>,
    pub engrams_decayed: Option<i32>,
    pub notes: Option<Seq<char>>,
}

impl View for ConsolidationRun {
    type V = RunView;

    open spec fn view(&self) -> RunView {
        RunView {
            id: self.id@,
            run_at: self.run_at,
            episodes_processed: self.episodes_processed,
            semantics_created: self.semantics_created,
            engrams_decayed: self.engrams_decayed,
            notes: opt_text(self.notes),
        }
    }
}

/// A fresh imagined engram is quarantined, a fresh episodic one is not.
pub proof fn law_only_imagined_engrams_start_quarantined(
    id: Seq<char>,
    content: Seq<char>,
    source: EngramSource,
    context: Seq<char>,
    created_at: Timestamp,
    modified_at: Timestamp,
)
    ensures
        EngramView::imagination(id, content, context, created_at, modified_at).quarantined(),
        !EngramView::episodic(
            id,
            content,
            source,
            context,
            created_at,
            modified_at,
        ).quarantined(),
{
}

/// What is stored of layers, sources, levels of privacy and types of links are these names.
pub proof fn law_names_read()
    ensures
        EngramLayer::Episodic.name() == "episodic"@,
        EngramLayer::Semantic.name() == "semantic"@,
        EngramLayer::Imagined.name() == "imagined"@,
        EngramSource::Interaction.name() == "interaction"@,
        EngramSource::Sensor.name() == "sensor"@,
        EngramSource::Consolidation.name() == "consolidation"@,
        EngramSource::Imagined.name() == "imagined"@,
        EngramSource::Chat.name() == "chat"@,
        EngramSource::Slack.name() == "slack"@,
        EngramSource::Discord.name() == "discord"@,
        EngramSource::Telegram.name() == "telegram"@,
        EngramSource::Window.name() == "window"@,
        EngramSource::Mic.name() == "mic"@,
        EngramSource::Agent.name() == "agent"@,
        EngramSource::Research.name() == "research"@,
        EngramSource::System.name() == "system"@,
        EngramSource::Observation.name() == "observation"@,
        EngramSource::AiSession.name() == "ai-session"@,
        EngramSource::AiTool.name() == "ai-tool"@,
        EngramSource::System.named("infinity_core"@),
        PrivacyLevel::StrictLocal.name() == "strict_local"@,
        PrivacyLevel::Hybrid.name() == "hybrid"@,
        PrivacyLevel::CloudFirst.name() == "cloud_first"@,
        PrivacyLevel::Enterprise.name() == "enterprise"@,
        LinkType::Associative.name() == "associative"@,
        LinkType::Causal.name() == "causal"@,
        LinkType::Analogical.name() == "analogical"@,
        LinkType::Temporal.name() == "temporal"@,
{
}

/// A name stands for what bears it, and nothing else does: a layer is found by its name only.
pub proof fn law_only_names_name(l: EngramLayer, s: EngramSource, k: LinkType, name: Seq<char>)
    ensures
        l.named(name) <==> name == l.name(),
        s.named(name) <==> name == s.name() || s is System && name == "infinity_core"@,
        k.named(name) <==> name == k.name(),
{
}

/// A new episode is of full strength, an imagined engram of half; neither was retrieved, linked,
/// tagged or grounded yet, and both hold what they were made with.
pub proof fn law_new_engrams_hold_what_they_were_made_with(
    id: Seq<char>,
    content: Seq<char>,
    source: EngramSource,
    context: Seq<char>,
    created_at: Timestamp,
    modified_at: Timestamp,
)
    ensures
        ({
            let e = EngramView::episodic(id, content, source, context, created_at, modified_at);
            let i = EngramView::imagination(id, content, context, created_at, modified_at);
            &&& e.id == id && i.id == id
            &&& e.content == content && i.content == content
            &&& e.context == context && i.context == context
            &&& e.created_at == created_at && i.created_at == created_at
            &&& e.modified_at == modified_at && i.modified_at == modified_at
            &&& e.layer is Episodic && i.layer is Imagined
            &&& e.source == source && i.source is Imagined
            &&& e.strength.bits == 0x3ff0_0000_0000_0000 && i.strength.bits
                == 0x3fe0_0000_0000_0000
            &&& !e.imagined && i.imagined
            &&& !e.grounded && !i.grounded
            &&& e.retrievals == 0 && i.retrievals == 0
            &&& e.valence.bits == 0 && i.valence.bits == 0
            &&& e.last_retrieved is None && i.last_retrieved is None
            &&& e.occurred_at is None && i.occurred_at is None
            &&& e.project is None && i.project is None
            &&& e.tags.len() == 0 && i.tags.len() == 0
            &&& e.links.len() == 0 && i.links.len() == 0
            &&& e.privacy_level is CloudFirst && i.privacy_level is CloudFirst
            &&& e.scope == "moment"@ && i.scope == "moment"@
            &&& e.content_type == "text"@ && i.content_type == "text"@
        }),
{
}

/// What is said of a link is said of its fields.
pub proof fn law_link_is_seen_as_it_is(x: EngramLink)
    ensures
        x@.target_id == x.target_id@,
        x@.weight == x.weight,
        x@.link_type == x.link_type,
{
}

/// What is said of an engram is said of its fields.
pub proof fn law_engram_is_seen_as_it_is(x: Engram)
    ensures
        x@.id == x.id@,
        x@.content == x.content@,
        x@.context == x.context@,
        x@.scope == x.scope@,
        x@.content_type == x.content_type@,
        x@.layer == x.layer,
        x@.source == x.source,
        x@.strength == x.strength,
        x@.valence == x.valence,
        x@.retrievals == x.retrievals,
        x@.imagined == x.imagined,
        x@.grounded == x.grounded,
        x@.created_at == x.created_at,
        x@.modified_at == x.modified_at,
        x@.last_retrieved == x.last_retrieved,
        x@.privacy_level == x.privacy_level,
        x@.occurred_at == x.occurred_at,
        (x@.project is Some) == (x.project is Some),
        x.project is Some ==> x@.project->0 == (x.project->0)@,
        x@.links.len() == x.links@.len(),
        forall|i: int| 0 <= i < x.links@.len() ==> #[trigger] x@.links[i] == x.links@[i]@,
        x@.tags.len() == x.tags@.len(),
        forall|i: int| 0 <= i < x.tags@.len() ==> #[trigger] x@.tags[i] == x.tags@[i]@,
{
}

/// What is said of a consolidation run is said of its fields.
pub proof fn law_run_is_seen_as_it_is(x: ConsolidationRun)
    ensures
        x@.id == x.id@,
        x@.run_at == x.run_at,
        x@.episodes_processed == x.episodes_processed,
        x@.semantics_created == x.semantics_created,
        x@.engrams_decayed == x.engrams_decayed,
        (x@.notes is Some) == (x.notes is Some),
        x.notes is Some ==> x@.notes->0 == (x.notes->0)@,
{
}

/// The strengths that a character starts with are 0.9, 0.85, 0.8 and 0.75, as the nearest numbers
/// of double precision write them.
pub proof fn law_strengths_of_a_character()
    ensures
        NINE_TENTHS == 0x3fec_cccc_cccc_cccd,
        SEVENTEEN_TWENTIETHS == 0x3feb_3333_3333_3333,
        FOUR_FIFTHS == 0x3fe9_9999_9999_999a,
        THREE_QUARTERS == 0x3fe8_0000_0000_0000,
{
}

} // verus!
