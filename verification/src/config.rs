//! Configuration of the cache.
use vstd::prelude::*;

verus! {

/// Configuration of the cache.
#[derive(Debug)]
pub struct ResponseCacheConfig {
    /// Default TTL for cached results (milliseconds).
    pub default_ttl_ms: u64,
    /// Maximum number of entries in the cache.
    pub max_entries: usize,
    /// Per-tool TTL overrides (glob patterns supported). The first rule that matches counts.
    pub per_tool: Vec<ToolCacheConfig>,
    /// Cache scope: "shared" (all identities share cache) or "per_identity".
    pub cache_scope: String,
}

/// The TTL of the tools that a pattern matches.
#[derive(Debug)]
pub struct ToolCacheConfig {
    /// Tool name patterns (`*` for any run of characters, `?` for exactly one).
    pub tools: Vec<String>,
    /// TTL for matching tools (milliseconds). 0 means no caching.
    pub ttl_ms: u64,
}

/// The model of a configuration.
#[verifier::ext_equal]
pub struct Config {
    pub default_ttl_ms: u64,
    pub max_entries: usize,
    pub per_tool: Seq<ToolRule>,
    pub cache_scope: Seq<char>,
}

/// The model of a per-tool rule.
#[verifier::ext_equal]
pub struct ToolRule {
    pub tools: Seq<Seq<char>>,
    pub ttl_ms: u64,
}

impl View for ToolCacheConfig {
    type V = ToolRule;

    open spec fn view(&self) -> ToolRule {
        ToolRule { tools: self.tools@.map_values(|p: String| p@), ttl_ms: self.ttl_ms }
    }
}

impl View for ResponseCacheConfig {
    type V = Config;

    open spec fn view(&self) -> Config {
        Config {
            default_ttl_ms: self.default_ttl_ms,
            max_entries: self.max_entries,
            per_tool: self.per_tool@.map_values(|r: ToolCacheConfig| r@),
            cache_scope: self.cache_scope@,
        }
    }
}

impl Clone for ToolCacheConfig {
    fn clone(&self) -> (copy: Self)
        ensures
            copy@ == self@,
    {
        let mut tools: Vec<String> = Vec::new();
        let mut i: usize = 0;
        while i < self.tools.len()
            invariant
                i <= self.tools@.len(),
                tools@.len() == i,
                forall|j: int| 0 <= j < i ==> #[trigger] tools@[j]@ == self.tools@[j]@,
            decreases self.tools@.len() - i,
        {
            tools.push(self.tools[i].clone());
            i += 1;
        }
        let copy = ToolCacheConfig { tools, ttl_ms: self.ttl_ms };
        assert(copy@.tools =~= self@.tools);
        copy
    }
}

impl Clone for ResponseCacheConfig {
    fn clone(&self) -> (copy: Self)
        ensures
            copy@ == self@,
    {
        let mut per_tool: Vec<ToolCacheConfig> = Vec::new();
        let mut i: usize = 0;
        while i < self.per_tool.len()
            invariant
                i <= self.per_tool@.len(),
                per_tool@.len() == i,
                forall|j: int| 0 <= j < i ==> #[trigger] per_tool@[j]@ == self.per_tool@[j]@,
            decreases self.per_tool@.len() - i,
        {
            per_tool.push(self.per_tool[i].clone());
            i += 1;
        }
        let copy = ResponseCacheConfig {
            default_ttl_ms: self.default_ttl_ms,
            max_entries: self.max_entries,
            per_tool,
            cache_scope: self.cache_scope.clone(),
        };
        assert(copy@.per_tool =~= self@.per_tool);
        copy
    }
}

/// The configuration that an empty block stands for.
pub open spec fn default_config() -> Config {
    Config {
        default_ttl_ms: 300000,
        max_entries: 10_000,
        per_tool: seq![],
        cache_scope: "shared"@,
    }
}

/// The TTL of a tool that no rule matches: five minutes.
pub fn default_ttl_ms() -> (ttl_ms: u64)
    ensures
        ttl_ms == 300000,
{
    300000
}

/// The number of entries that a cache holds where nothing else is said.
pub fn default_max_entries() -> (n: usize)
    ensures
        n == 10_000,
{
    10_000
}

/// The scope of a cache where nothing else is said.
pub fn default_cache_scope() -> (scope: String)
    ensures
        scope@ == "shared"@,
{
    "shared".to_owned()
}

impl Default for ResponseCacheConfig {
    fn default() -> (config: Self)
        ensures
            config@ == default_config(),
    {
        let config = ResponseCacheConfig {
            default_ttl_ms: default_ttl_ms(),
            max_entries: default_max_entries(),
            per_tool: Vec::new(),
            cache_scope: default_cache_scope(),
        };
        assert(config@.per_tool =~= default_config().per_tool);
        config
    }
}

} // verus!
