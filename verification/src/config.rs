//! The application configuration: storage location, open tabs, vector and
//! graph settings, and the language-model choice, together with the merge
//! rule that applies a partial update.
//!
//! The similarity threshold travels in thousandths of the 0-to-1 distance
//! scale, so the stored value is an exact rational.

use vstd::prelude::*;

verus! {

/// An open editor tab.
pub struct Tab {
    pub document_id: String,
    pub block_id: String,
    pub is_active: bool,
    pub cursor: u32,
    pub title: Option<String>,
}

/// The mathematical content of a [`Tab`].
pub struct TabView {
    pub document_id: Seq<char>,
    pub block_id: Seq<char>,
    pub is_active: bool,
    pub cursor: int,
    pub title: Option<Seq<char>>,
}

impl View for Tab {
    type V = TabView;

    open spec fn view(&self) -> TabView {
        TabView {
            document_id: self.document_id@,
            block_id: self.block_id@,
            is_active: self.is_active,
            cursor: self.cursor as int,
            title: match self.title {
                Some(t) => Some(t@),
                None => None,
            },
        }
    }
}

/// Vector-search tuning: the similarity threshold in thousandths of the
/// 0-to-1 distance scale.
#[derive(Clone, Copy, Debug, PartialEq, Eq, Structural)]
pub struct VectorSettings {
    pub similarity_threshold_milli: u32,
}

impl Default for VectorSettings {
    /// The default threshold is one half.
    fn default() -> (r: VectorSettings)
        ensures
            r.similarity_threshold_milli == 500,
    {
        VectorSettings { similarity_threshold_milli: 500 }
    }
}

/// The palette of the graph presentation.
pub struct GraphColors {
    pub document_node: String,
    pub tag_node: String,
    pub document_link: String,
    pub tag_link: String,
}

/// The mathematical content of a [`GraphColors`].
pub struct GraphColorsView {
    pub document_node: Seq<char>,
    pub tag_node: Seq<char>,
    pub document_link: Seq<char>,
    pub tag_link: Seq<char>,
}

impl View for GraphColors {
    type V = GraphColorsView;

    open spec fn view(&self) -> GraphColorsView {
        GraphColorsView {
            document_node: self.document_node@,
            tag_node: self.tag_node@,
            document_link: self.document_link@,
            tag_link: self.tag_link@,
        }
    }
}

impl Default for GraphColors {
    /// The stock palette.
    fn default() -> (r: GraphColors)
        ensures
            r@.document_node == "#3b82f6"@,
            r@.tag_node == "#22c55e"@,
            r@.document_link == "#94a3b8"@,
            r@.tag_link == "#86efac"@,
    {
        GraphColors {
            document_node: String::from_str("#3b82f6"),
            tag_node: String::from_str("#22c55e"),
            document_link: String::from_str("#94a3b8"),
            tag_link: String::from_str("#86efac"),
        }
    }
}

/// Graph presentation settings.
pub struct GraphSettings {
    pub multi_hop_level: i32,
    pub colors: GraphColors,
}

/// The mathematical content of a [`GraphSettings`].
pub struct GraphSettingsView {
    pub multi_hop_level: int,
    pub colors: GraphColorsView,
}

impl View for GraphSettings {
    type V = GraphSettingsView;

    open spec fn view(&self) -> GraphSettingsView {
        GraphSettingsView { multi_hop_level: self.multi_hop_level as int, colors: self.colors@ }
    }
}

impl Default for GraphSettings {
    /// One hop, stock palette.
    fn default() -> (r: GraphSettings)
        ensures
            r.multi_hop_level == 1,
            r@.colors.document_node == "#3b82f6"@,
            r@.colors.tag_node == "#22c55e"@,
            r@.colors.document_link == "#94a3b8"@,
            r@.colors.tag_link == "#86efac"@,
    {
        GraphSettings { multi_hop_level: 1, colors: GraphColors::default() }
    }
}

/// The language model used for tag generation.
#[derive(Clone, Copy, Debug, PartialEq, Eq, Structural)]
pub enum GeminiModel {
    Gemini25Flash,
    Gemini20Flash,
    Gemini20FlashLite,
    Gemini15Flash,
    Gemini15Pro,
}

impl Default for GeminiModel {
    /// The stock model.
    fn default() -> (r: GeminiModel)
        ensures
            r == GeminiModel::Gemini20Flash,
    {
        GeminiModel::Gemini20Flash
    }
}

impl GeminiModel {
    /// The wire name of the model.
    pub fn as_str(&self) -> (r: &'static str)
        ensures
            *self == GeminiModel::Gemini25Flash ==> r@ == "gemini-2.5-flash"@,
            *self == GeminiModel::Gemini20Flash ==> r@ == "gemini-2.0-flash"@,
            *self == GeminiModel::Gemini20FlashLite ==> r@ == "gemini-2.0-flash-lite"@,
            *self == GeminiModel::Gemini15Flash ==> r@ == "gemini-1.5-flash"@,
            *self == GeminiModel::Gemini15Pro ==> r@ == "gemini-1.5-pro"@,
    {
        match self {
            GeminiModel::Gemini25Flash => "gemini-2.5-flash",
            GeminiModel::Gemini20Flash => "gemini-2.0-flash",
            GeminiModel::Gemini20FlashLite => "gemini-2.0-flash-lite",
            GeminiModel::Gemini15Flash => "gemini-1.5-flash",
            GeminiModel::Gemini15Pro => "gemini-1.5-pro",
        }
    }
}

/// A partial configuration update: an absent outer layer keeps the current
/// value, an absent inner layer resets to the default, a present value
/// replaces.
pub struct AppConfigSaveDto {
    pub storage_path: Option<Option<String>>,
    pub is_database_initialized: Option<Option<bool>>,
    pub tabs: Option<Option<Vec<Tab>>>,
    pub vector_settings: Option<Option<VectorSettings>>,
    pub graph_settings: Option<Option<GraphSettings>>,
    pub gemini_api_key: Option<Option<String>>,
    pub gemini_model: Option<Option<GeminiModel>>,
}

/// The application configuration.
pub struct AppConfig {
    pub storage_path: Option<String>,
    pub is_database_initialized: bool,
    pub tabs: Vec<Tab>,
    pub vector_settings: VectorSettings,
    pub graph_settings: GraphSettings,
    pub gemini_api_key: Option<String>,
    pub gemini_model: GeminiModel,
}

/// The mathematical content of an [`AppConfig`].
pub struct AppConfigView {
    pub storage_path: Option<Seq<char>>,
    pub is_database_initialized: bool,
    pub tabs: Seq<TabView>,
    pub vector_settings: VectorSettings,
    pub graph_settings: GraphSettingsView,
    pub gemini_api_key: Option<Seq<char>>,
    pub gemini_model: GeminiModel,
}

impl View for AppConfig {
    type V = AppConfigView;

    open spec fn view(&self) -> AppConfigView {
        AppConfigView {
            storage_path: match self.storage_path {
                Some(p) => Some(p@),
                None => None,
            },
            is_database_initialized: self.is_database_initialized,
            tabs: self.tabs@.map_values(|t: Tab| t@),
            vector_settings: self.vector_settings,
            graph_settings: self.graph_settings@,
            gemini_api_key: match self.gemini_api_key {
                Some(k) => Some(k@),
                None => None,
            },
            gemini_model: self.gemini_model,
        }
    }
}

impl Default for AppConfig {
    /// No storage chosen yet, nothing open, stock settings.
    fn default() -> (r: AppConfig)
        ensures
            r.storage_path is None,
            !r.is_database_initialized,
            r.tabs@.len() == 0,
            r.vector_settings.similarity_threshold_milli == 500,
            r.graph_settings.multi_hop_level == 1,
            r.gemini_api_key is None,
            r.gemini_model == GeminiModel::Gemini20Flash,
    {
        AppConfig {
            storage_path: None,
            is_database_initialized: false,
            tabs: Vec::new(),
            vector_settings: VectorSettings::default(),
            graph_settings: GraphSettings::default(),
            gemini_api_key: None,
            gemini_model: GeminiModel::default(),
        }
    }
}

/// Copy a string option.
fn clone_opt_string(o: &Option<String>) -> (r: Option<String>)
    ensures
        (r is Some) == (o is Some),
        r matches Some(s) ==> (o matches Some(p) && s@ == p@),
{
    match o {
        Some(s) => Some(s.clone()),
        None => None,
    }
}

/// Copy a tab list.
fn clone_tabs(tabs: &Vec<Tab>) -> (r: Vec<Tab>)
    ensures
        r@.map_values(|t: Tab| t@) == tabs@.map_values(|t: Tab| t@),
{
    let mut out: Vec<Tab> = Vec::new();
    let n: usize = tabs.len();
    let mut i: usize = 0;
    while i < n
        invariant
            i <= n,
            n == tabs@.len(),
            out@.map_values(|t: Tab| t@) == tabs@.map_values(|t: Tab| t@).take(i as int),
        decreases n - i,
    {
        let t = Tab {
            document_id: tabs[i].document_id.clone(),
            block_id: tabs[i].block_id.clone(),
            is_active: tabs[i].is_active,
            cursor: tabs[i].cursor,
            title: clone_opt_string(&tabs[i].title),
        };
        proof {
            assert(t@ == tabs@[i as int]@);
            assert((out@.push(t)).map_values(|x: Tab| x@) =~= out@.map_values(|x: Tab| x@).push(
                t@,
            ));
            assert(tabs@.map_values(|x: Tab| x@).take(i as int + 1) =~= tabs@.map_values(
                |x: Tab| x@,
            ).take(i as int).push(tabs@[i as int]@));
        }
        out.push(t);
        i = i + 1;
    }
    proof {
        assert(tabs@.map_values(|t: Tab| t@).take(n as int) =~= tabs@.map_values(|t: Tab| t@));
    }
    out
}

/// Copy a palette.
fn clone_colors(c: &GraphColors) -> (r: GraphColors)
    ensures
        r@ == c@,
{
    GraphColors {
        document_node: c.document_node.clone(),
        tag_node: c.tag_node.clone(),
        document_link: c.document_link.clone(),
        tag_link: c.tag_link.clone(),
    }
}

impl AppConfig {
    /// Apply a partial update: per field, an absent outer layer keeps the
    /// current value, an absent inner layer resets to the default, and a
    /// present value replaces.
    pub fn merge(&self, dto: &AppConfigSaveDto) -> (r: AppConfig)
        ensures
            r@.storage_path == (match dto.storage_path {
                None => self@.storage_path,
                Some(None) => None::<Seq<char>>,
                Some(Some(v)) => Some(v@),
            }),
            r.is_database_initialized == (match dto.is_database_initialized {
                None => self.is_database_initialized,
                Some(None) => self.is_database_initialized,
                Some(Some(b)) => b,
            }),
            r@.tabs == (match dto.tabs {
                None => self@.tabs,
                Some(None) => Seq::<TabView>::empty(),
                Some(Some(v)) => v@.map_values(|t: Tab| t@),
            }),
            r.vector_settings == (match dto.vector_settings {
                None => self.vector_settings,
                Some(None) => (VectorSettings { similarity_threshold_milli: 500 }),
                Some(Some(v)) => v,
            }),
            r@.graph_settings.multi_hop_level == (match dto.graph_settings {
                None => self@.graph_settings.multi_hop_level,
                Some(None) => 1int,
                Some(Some(g)) => g.multi_hop_level as int,
            }),
            r@.graph_settings.colors == (match dto.graph_settings {
                None => self@.graph_settings.colors,
                Some(None) => (GraphColorsView {
                    document_node: "#3b82f6"@,
                    tag_node: "#22c55e"@,
                    document_link: "#94a3b8"@,
                    tag_link: "#86efac"@,
                }),
                Some(Some(g)) => g.colors@,
            }),
            r@.gemini_api_key == (match dto.gemini_api_key {
                None => self@.gemini_api_key,
                Some(None) => None::<Seq<char>>,
                Some(Some(v)) => Some(v@),
            }),
            r.gemini_model == (match dto.gemini_model {
                None => self.gemini_model,
                Some(None) => GeminiModel::Gemini20Flash,
                Some(Some(m)) => m,
            }),
    {
        let storage_path = match &dto.storage_path {
            None => clone_opt_string(&self.storage_path),
            Some(None) => None,
            Some(Some(value)) => Some(value.clone()),
        };
        let is_database_initialized = match &dto.is_database_initialized {
            None => self.is_database_initialized,
            Some(None) => self.is_database_initialized,
            Some(Some(b)) => *b,
        };
        let tabs = match &dto.tabs {
            None => clone_tabs(&self.tabs),
            Some(None) => Vec::new(),
            Some(Some(v)) => clone_tabs(v),
        };
        let vector_settings = match &dto.vector_settings {
            None => self.vector_settings,
            Some(None) => VectorSettings::default(),
            Some(Some(v)) => *v,
        };
        let graph_settings = match &dto.graph_settings {
            None => GraphSettings {
                multi_hop_level: self.graph_settings.multi_hop_level,
                colors: clone_colors(&self.graph_settings.colors),
            },
            Some(None) => GraphSettings::default(),
            Some(Some(g)) => GraphSettings {
                multi_hop_level: g.multi_hop_level,
                colors: clone_colors(&g.colors),
            },
        };
        let gemini_api_key = match &dto.gemini_api_key {
            None => clone_opt_string(&self.gemini_api_key),
            Some(None) => None,
            Some(Some(value)) => Some(value.clone()),
        };
        let gemini_model = match &dto.gemini_model {
            None => self.gemini_model,
            Some(None) => GeminiModel::default(),
            Some(Some(m)) => *m,
        };
        AppConfig {
            storage_path,
            is_database_initialized,
            tabs,
            vector_settings,
            graph_settings,
            gemini_api_key,
            gemini_model,
        }
    }
}

/// What can go wrong while loading, saving or initializing around the
/// configuration; each variant carries the underlying failure's text.
#[derive(Debug)]
pub enum ConfigError {
    AppDataPath(String),
    ConfigParsing(String),
    ConfigSerializing(String),
    ConfigReading(String),
    ConfigSaving(String),
    DatabaseInitialization(String),
    DatabaseConnectionCreation(String),
    DatabaseExtensionLoading(String),
    DatabaseSchemaInitialization(String),
    DatabaseMigrationsRunning(String),
}

impl ConfigError {
    /// A short description of the failing step.
    pub fn describe(&self) -> (r: String)
        ensures
            self matches ConfigError::AppDataPath(_) ==> r@ == "Failed to get app data path"@,
            self matches ConfigError::ConfigParsing(_) ==> r@ == "Failed to parse config file"@,
            self matches ConfigError::ConfigSerializing(_) ==> r@
                == "Failed to serialize config file"@,
            self matches ConfigError::ConfigReading(_) ==> r@ == "Failed to read config file"@,
            self matches ConfigError::ConfigSaving(_) ==> r@ == "Failed to save config file"@,
            self matches ConfigError::DatabaseInitialization(_) ==> r@
                == "Failed to initialize database"@,
            self matches ConfigError::DatabaseConnectionCreation(_) ==> r@
                == "Failed to create database connection"@,
            self matches ConfigError::DatabaseExtensionLoading(_) ==> r@
                == "Failed to load vector extension"@,
            self matches ConfigError::DatabaseSchemaInitialization(_) ==> r@
                == "Failed to initialize schema"@,
            self matches ConfigError::DatabaseMigrationsRunning(_) ==> r@
                == "Failed to run migrations"@,
    {
        match self {
            ConfigError::AppDataPath(_) => String::from_str("Failed to get app data path"),
            ConfigError::ConfigParsing(_) => String::from_str("Failed to parse config file"),
            ConfigError::ConfigSerializing(_) => String::from_str(
                "Failed to serialize config file",
            ),
            ConfigError::ConfigReading(_) => String::from_str("Failed to read config file"),
            ConfigError::ConfigSaving(_) => String::from_str("Failed to save config file"),
            ConfigError::DatabaseInitialization(_) => String::from_str(
                "Failed to initialize database",
            ),
            ConfigError::DatabaseConnectionCreation(_) => String::from_str(
                "Failed to create database connection",
            ),
            ConfigError::DatabaseExtensionLoading(_) => String::from_str(
                "Failed to load vector extension",
            ),
            ConfigError::DatabaseSchemaInitialization(_) => String::from_str(
                "Failed to initialize schema",
            ),
            ConfigError::DatabaseMigrationsRunning(_) => String::from_str(
                "Failed to run migrations",
            ),
        }
    }
}

} // verus!
