//! Request and response types of the chat-completion, tools and responses
//! endpoints.
use vstd::prelude::*;
use vstd::string::StringExecFns;

pub mod stream;

verus! {

#[derive(Debug, Clone)]
pub enum ResponseFormat {
    JsonObject,
    Text,
}

#[derive(Debug, Clone)]
pub struct ImageGeneration {
    /// e.g. "standard", "hd"
    pub quality: Option<String>,
    /// e.g. "1024x1024"
    pub size: Option<String>,
    /// e.g. "base64", "url"
    pub output_format: Option<String>,
}

#[derive(Debug, Clone)]
pub struct ChatCompletion {
    pub id: Option<String>,
    pub created: u32,
    pub model: Option<String>,
    pub object: Option<String>,
    pub choices: Vec<Choice>,
    pub usage: Usage,
}

impl ChatCompletion {
    /// The text of the first choice's message.
    pub fn to_string(&self) -> (r: String)
        requires
            self.choices.len() > 0,
        ensures
            r@ == self.choices@[0].message.content@,
    {
        self.choices[0].message.content.clone()
    }
}

#[derive(Debug, Clone)]
pub struct Usage {
    pub prompt_tokens: u32,
    pub completion_tokens: u32,
    pub total_tokens: u32,
}

#[derive(Debug, Clone)]
pub struct Choice {
    pub index: Option<u32>,
    pub message: Message,
    pub finish_reason: String,
}

#[derive(Debug, Clone)]
pub struct Message {
    pub role: String,
    pub content: String,
}

pub enum Role {
    System,
    Assistant,
    User,
}

/// A server-side tool of the agent tools API.
#[derive(Debug, Clone)]
pub struct GrokTool {
    /// The kind of tool.
    pub tool_type: GrokToolType,
    /// Restrict web search to these domains (at most 5); web search only.
    pub allowed_domains: Option<Vec<String>>,
    /// Inclusive start date of search results (YYYY-MM-DD).
    pub from_date: Option<String>,
    /// Inclusive end date of search results (YYYY-MM-DD).
    pub to_date: Option<String>,
    /// Collection ids to search; required for collections search.
    pub collection_ids: Option<Vec<String>>,
    /// MCP server URL; required for the MCP tool.
    pub server_url: Option<String>,
}

/// The kind of a server-side tool.
#[derive(Debug, Clone, Copy, PartialEq, Eq, Structural)]
pub enum GrokToolType {
    /// Real-time web search and page browsing
    WebSearch,
    /// Search X posts, users and threads
    XSearch,
    /// Execute Python code for calculations and data analysis
    CodeExecution,
    /// Search uploaded document collections
    CollectionsSearch,
    /// Connect to external MCP servers for custom tools
    Mcp,
}

impl GrokTool {
    /// A tool of the given kind with no option set.
    pub open spec fn plain(t: GrokToolType) -> GrokTool {
        GrokTool {
            tool_type: t,
            allowed_domains: None,
            from_date: None,
            to_date: None,
            collection_ids: None,
            server_url: None,
        }
    }

    /// A web search tool with default settings.
    pub fn web_search() -> (r: Self)
        ensures
            r == Self::plain(GrokToolType::WebSearch),
    {
        Self {
            tool_type: GrokToolType::WebSearch,
            allowed_domains: None,
            from_date: None,
            to_date: None,
            collection_ids: None,
            server_url: None,
        }
    }

    /// An X search tool with default settings.
    pub fn x_search() -> (r: Self)
        ensures
            r == Self::plain(GrokToolType::XSearch),
    {
        Self {
            tool_type: GrokToolType::XSearch,
            allowed_domains: None,
            from_date: None,
            to_date: None,
            collection_ids: None,
            server_url: None,
        }
    }

    /// A code execution tool.
    pub fn code_execution() -> (r: Self)
        ensures
            r == Self::plain(GrokToolType::CodeExecution),
    {
        Self {
            tool_type: GrokToolType::CodeExecution,
            allowed_domains: None,
            from_date: None,
            to_date: None,
            collection_ids: None,
            server_url: None,
        }
    }

    /// A collections search tool over the given collection ids.
    pub fn collections_search(collection_ids: Vec<String>) -> (r: Self)
        ensures
            r == (GrokTool {
                collection_ids: Some(collection_ids),
                ..Self::plain(GrokToolType::CollectionsSearch)
            }),
    {
        Self {
            tool_type: GrokToolType::CollectionsSearch,
            allowed_domains: None,
            from_date: None,
            to_date: None,
            collection_ids: Some(collection_ids),
            server_url: None,
        }
    }

    /// An MCP tool that connects to the server at `server_url`.
    pub fn mcp(server_url: String) -> (r: Self)
        ensures
            r == (GrokTool { server_url: Some(server_url), ..Self::plain(GrokToolType::Mcp) }),
    {
        Self {
            tool_type: GrokToolType::Mcp,
            allowed_domains: None,
            from_date: None,
            to_date: None,
            collection_ids: None,
            server_url: Some(server_url),
        }
    }

    /// Restricts web search to the given domains.
    pub fn with_allowed_domains(self, domains: Vec<String>) -> (r: Self)
        ensures
            r == (GrokTool { allowed_domains: Some(domains), ..self }),
    {
        let mut t = self;
        t.allowed_domains = Some(domains);
        t
    }

    /// Sets the date range of search results (YYYY-MM-DD).
    pub fn with_date_range(self, from: &str, to: &str) -> (r: Self)
        ensures
            r.tool_type == self.tool_type,
            r.allowed_domains == self.allowed_domains,
            r.collection_ids == self.collection_ids,
            r.server_url == self.server_url,
            r.from_date matches Some(f) && f@ == from@,
            r.to_date matches Some(t) && t@ == to@,
    {
        let mut t = self;
        t.from_date = Some(from.to_owned());
        t.to_date = Some(to.to_owned());
        t
    }
}

/// One message of the responses API input.
#[derive(Debug, Clone)]
pub struct ResponsesMessage {
    pub role: String,
    pub content: String,
}

/// A response of the responses API, with the citations of the sources
/// used while searching.
#[derive(Debug, Clone)]
pub struct ResponsesCompletion {
    pub id: Option<String>,
    /// The output items of the model
    pub output: Vec<ResponsesOutputItem>,
    /// URLs of the sources used during search
    pub citations: Vec<String>,
    /// Token usage
    pub usage: ResponsesUsage,
}

/// An output item of a response.
#[derive(Debug, Clone)]
pub struct ResponsesOutputItem {
    pub item_type: String,
    pub role: Option<String>,
    pub content: Option<Vec<ResponsesContent>>,
}

/// A piece of content within an output item.
#[derive(Debug, Clone)]
pub struct ResponsesContent {
    pub content_type: String,
    pub text: Option<String>,
}

/// Token usage of a response.
#[derive(Debug, Clone)]
pub struct ResponsesUsage {
    pub input_tokens: u32,
    pub output_tokens: u32,
    pub total_tokens: u32,
}

/// The text that a content piece adds to a response: its text when it is
/// output text, nothing otherwise.
pub open spec fn content_text(c: ResponsesContent) -> Seq<char> {
    if c.content_type@ == "output_text"@ && c.text is Some {
        c.text->0@
    } else {
        Seq::empty()
    }
}

/// The output text of a list of content pieces, in order.
pub open spec fn contents_text(cs: Seq<ResponsesContent>) -> Seq<char>
    decreases cs.len(),
{
    if cs.len() == 0 {
        Seq::empty()
    } else {
        contents_text(cs.drop_last()) + content_text(cs.last())
    }
}

/// The text that an output item adds: the output text of its content when
/// it is a message, nothing otherwise.
pub open spec fn item_text(item: ResponsesOutputItem) -> Seq<char> {
    if item.item_type@ == "message"@ && item.content is Some {
        contents_text(item.content->0@)
    } else {
        Seq::empty()
    }
}

/// The output text of a list of output items, in order.
pub open spec fn items_text(items: Seq<ResponsesOutputItem>) -> Seq<char>
    decreases items.len(),
{
    if items.len() == 0 {
        Seq::empty()
    } else {
        items_text(items.drop_last()) + item_text(items.last())
    }
}

impl ResponsesCompletion {
    /// The text of the response: the output text pieces of its message
    /// items, joined in order.
    pub fn get_text_content(&self) -> (r: String)
        ensures
            r@ == items_text(self.output@),
    {
        let message = "message".to_owned();
        let output_text = "output_text".to_owned();
        let mut out = String::new();
        let mut i: usize = 0;
        while i < self.output.len()
            invariant
                i <= self.output@.len(),
                out@ == items_text(self.output@.take(i as int)),
                message@ == "message"@,
                output_text@ == "output_text"@,
            decreases self.output@.len() - i,
        {
            let item = &self.output[i];
            let ghost before = out@;
            if item.item_type == message {
                if let Some(cs) = &item.content {
                    let mut j: usize = 0;
                    while j < cs.len()
                        invariant
                            j <= cs@.len(),
                            out@ == before + contents_text(cs@.take(j as int)),
                            output_text@ == "output_text"@,
                        decreases cs@.len() - j,
                    {
                        let c = &cs[j];
                        if c.content_type == output_text {
                            if let Some(t) = &c.text {
                                out.append(t.as_str());
                            }
                        }
                        proof {
                            assert(cs@.take(j + 1).drop_last() =~= cs@.take(j as int));
                        }
                        j = j + 1;
                    }
                    assert(cs@.take(j as int) =~= cs@);
                }
            }
            proof {
                assert(self.output@.take(i + 1).drop_last() =~= self.output@.take(i as int));
            }
            i = i + 1;
        }
        assert(self.output@.take(i as int) =~= self.output@);
        out
    }

    /// The text of the response, as `get_text_content` gives it.
    pub fn to_string(&self) -> (r: String)
        ensures
            r@ == items_text(self.output@),
    {
        self.get_text_content()
    }
}

} // verus!
