//! What a user agent says of the client: its platform and its browser, as
//! `user_agent_parser` reads them with the patterns it was given.

use user_agent_parser::UserAgentParser;
use vstd::prelude::*;
use crate::ingest::{
    property_views, rows_for_session, session_rows, Properties, Property, PropertyView,
};
use crate::value::{EventValue, EventValueView};

verus! {

#[verifier::external_type_specification]
#[verifier::external_body]
pub struct ExUserAgentParser(UserAgentParser);

/// The name of the operating system that the parser reads from a user agent.
pub uninterp spec fn os_name(parser: UserAgentParser, user_agent: Seq<char>) -> Option<Seq<char>>;

/// The name of the product that the parser reads from a user agent.
pub uninterp spec fn product_name(parser: UserAgentParser, user_agent: Seq<char>) -> Option<
    Seq<char>,
>;

/// `UserAgentParser::parse_os`, of which the name is kept.
#[verifier::external_body]
pub(crate) fn parse_os_name(parser: &UserAgentParser, user_agent: &str) -> (r: Option<String>)
    ensures
        text_view(r) == os_name(*parser, user_agent@),
{
    parser.parse_os(user_agent).name.map(|name| name.to_string())
}

/// `UserAgentParser::parse_product`, of which the name is kept.
#[verifier::external_body]
pub(crate) fn parse_product_name(parser: &UserAgentParser, user_agent: &str) -> (r: Option<String>)
    ensures
        text_view(r) == product_name(*parser, user_agent@),
{
    parser.parse_product(user_agent).name.map(|name| name.to_string())
}

/// An optional text as contracts see it.
pub open spec fn text_view(text: Option<String>) -> Option<Seq<char>> {
    match text {
        Some(t) => Some(t@),
        None => None,
    }
}

/// The platform and the browser of a client.
#[derive(Debug)]
pub struct UserAgent {
    pub platform: Option<String>,
    pub browser: Option<String>,
}

/// The row that records a platform under the name `platform`.
pub open spec fn platform_row(platform: Seq<char>) -> PropertyView {
    PropertyView { name: "platform"@, value: EventValueView::String(platform) }
}

/// The row that records a browser under the name `browser`.
pub open spec fn browser_row(browser: Seq<char>) -> PropertyView {
    PropertyView { name: "browser"@, value: EventValueView::String(browser) }
}

/// The rows that record what is known of a client: its platform, then its
/// browser, each only where it is known.
pub open spec fn agent_rows(platform: Option<Seq<char>>, browser: Option<Seq<char>>) -> Seq<
    PropertyView,
> {
    let first = match platform {
        Some(p) => seq![platform_row(p)],
        None => Seq::empty(),
    };
    match browser {
        Some(b) => first.push(browser_row(b)),
        None => first,
    }
}

impl UserAgent {
    /// Reads the platform and the browser from a user agent: the names
    /// of the operating system and of the product that the parser finds.
    pub fn new(parser: &UserAgentParser, user_agent: &str) -> (r: Self)
        ensures
            text_view(r.platform) == os_name(*parser, user_agent@),
            text_view(r.browser) == product_name(*parser, user_agent@),
    {
        UserAgent {
            platform: parse_os_name(parser, user_agent),
            browser: parse_product_name(parser, user_agent),
        }
    }

    /// The properties that an event carries for this client.
    pub fn properties(&self) -> (bag: Properties)
        ensures
            bag@ == agent_rows(text_view(self.platform), text_view(self.browser)),
            bag.wf(),
    {
        let mut bag = Properties::new();
        match &self.platform {
            Some(platform) => {
                bag.insert("platform".to_owned(), EventValue::String(platform.clone()));
                assert(bag@ =~= seq![platform_row(platform@)]);
            },
            None => {},
        }
        let ghost first = bag@;
        match &self.browser {
            Some(browser) => {
                proof {
                    reveal_strlit("platform");
                    reveal_strlit("browser");
                    assert forall|i: int| 0 <= i < first.len() implies (#[trigger] first[i]).name
                        != "browser"@ by {
                        assert(first[i].name.len() == 8);
                    }
                }
                bag.insert("browser".to_owned(), EventValue::String(browser.clone()));
                assert(bag@ =~= first.push(browser_row(browser@)));
            },
            None => {},
        }
        bag
    }
}

/// The rows of the event that records the loading of the tracking pixel:
/// its name, what the user agent says of the client where the request
/// carries one, and the session.
pub open spec fn pixel_rows(
    parser: UserAgentParser,
    user_agent: Option<Seq<char>>,
    session_id: Seq<char>,
) -> Seq<PropertyView> {
    session_rows(
        "tracking-pixel"@,
        match user_agent {
            Some(agent) => agent_rows(os_name(parser, agent), product_name(parser, agent)),
            None => Seq::empty(),
        },
        session_id,
    )
}

/// The rows of the event that records the loading of the tracking pixel.
pub fn tracking_pixel_rows(
    parser: &UserAgentParser,
    user_agent: Option<&str>,
    session_id: &str,
) -> (rows: Vec<Property>)
    ensures
        property_views(rows@) == pixel_rows(
            *parser,
            match user_agent {
                Some(agent) => Some(agent@),
                None => None,
            },
            session_id@,
        ),
{
    let properties = match user_agent {
        Some(agent) => UserAgent::new(parser, agent).properties(),
        None => Properties::new(),
    };
    rows_for_session("tracking-pixel", &properties, session_id)
}

} // verus!
