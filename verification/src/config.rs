//! The configuration as it is read, and as it is once every value that the
//! run needs is known to be there.

use vstd::prelude::*;
use crate::error::{Error, ErrorView};
use crate::text::{chars_of, opt_view};

verus! {

broadcast use vstd::string::group_string_axioms;

/// The values that the environment may give where the file gives none.
pub struct Environment {
    /// `YUQUE_SSG_TITLE`
    pub title: Option<String>,
    /// `YUQUE_SSG_THEME`
    pub theme: Option<String>,
    /// `YUQUE_SSG_HOST`
    pub host: Option<String>,
    /// `YUQUE_SSG_TOKEN`
    pub token: Option<String>,
}

/// Turns a configuration into its checked form, or names what is missing.
pub trait Check<T> {
    fn check(self, env: &Environment) -> Result<T, Error>;
}

/// One knowledge base to write, and where the navigation bar shows it.
#[derive(Debug, PartialEq, Eq)]
pub struct Namespace {
    pub target: String,
    pub toc: bool,
    pub text: String,
    pub nav: String,
}

impl Clone for Namespace {
    fn clone(&self) -> (r: Self)
        ensures
            r == *self,
    {
        Namespace {
            target: self.target.clone(),
            toc: self.toc,
            text: self.text.clone(),
            nav: self.nav.clone(),
        }
    }
}

/// The site's settings as read.
#[derive(Debug, PartialEq, Eq)]
pub struct SiteConfig {
    pub title: Option<String>,
    pub description: Option<String>,
    pub lang: String,
    pub base: String,
    pub host: String,
    pub port: Option<u16>,
    pub theme: Option<String>,
}

/// The site's settings with title, port and theme known.
#[derive(Debug, PartialEq, Eq)]
pub struct CheckedSiteConfig {
    pub title: String,
    pub description: Option<String>,
    pub lang: String,
    pub base: String,
    pub host: String,
    pub port: u16,
    pub theme: String,
}

/// The generator's settings as read.
#[derive(Debug, PartialEq, Eq)]
pub struct GeneratorConfig {
    pub host: Option<String>,
    pub token: Option<String>,
    pub namespaces: Vec<Namespace>,
    pub build_command: String,
}

/// The generator's settings with host and token known.
#[derive(Debug, PartialEq, Eq)]
pub struct CheckedGeneratorConfig {
    pub host: String,
    pub token: String,
    pub namespaces: Vec<Namespace>,
    pub build_command: String,
}

/// The whole configuration as read.
#[derive(Debug, PartialEq, Eq)]
pub struct Config {
    pub site: SiteConfig,
    pub generator: GeneratorConfig,
}

/// The base path of the site where the file names none.
pub fn default_base() -> (r: String)
    ensures
        r@ == "/"@,
{
    "/".to_owned()
}

/// The language of the site where the file names none.
pub fn default_lang() -> (r: String)
    ensures
        r@ == "zh-CN"@,
{
    "zh-CN".to_owned()
}

/// The address to listen on where the file names none.
pub fn default_host() -> (r: String)
    ensures
        r@ == "0.0.0.0"@,
{
    "0.0.0.0".to_owned()
}

/// The command that builds the site where the file names none.
pub fn default_build_command() -> (r: String)
    ensures
        r@ == "npm run docs:build"@,
{
    "npm run docs:build".to_owned()
}

// ---------------------------------------------------------------------------
// Numbers in the environment

/// Whether a character is a decimal digit.
pub open spec fn is_digit(c: char) -> bool {
    '0' <= c <= '9'
}

/// The number that a text of decimal digits writes.
pub open spec fn decimal_value(digits: Seq<char>) -> nat
    decreases digits.len(),
{
    if digits.len() == 0 {
        0
    } else {
        10 * decimal_value(digits.drop_last()) + (digits.last() as u32 - '0' as u32) as nat
    }
}

/// The digits of a number as it may be written: behind one `+`, or alone.
pub open spec fn digits_of(text: Seq<char>) -> Seq<char> {
    if text.len() > 0 && text[0] == '+' {
        text.skip(1)
    } else {
        text
    }
}

/// The port that a text writes: its digits, of which there is at least one,
/// give a number that a port can be.
pub open spec fn port_value(text: Seq<char>) -> Option<u16> {
    let digits = digits_of(text);
    if digits.len() > 0 && (forall|i: int| 0 <= i < digits.len() ==> is_digit(#[trigger] digits[i]))
        && decimal_value(digits) <= u16::MAX {
        Some(decimal_value(digits) as u16)
    } else {
        None
    }
}

/// A number never gets smaller when more digits follow.
proof fn lemma_decimal_grows(digits: Seq<char>, k: int)
    requires
        0 <= k <= digits.len(),
        forall|i: int| 0 <= i < digits.len() ==> is_digit(#[trigger] digits[i]),
    ensures
        decimal_value(digits.take(k)) <= decimal_value(digits),
    decreases digits.len() - k,
{
    if k < digits.len() {
        lemma_decimal_grows(digits, k + 1);
        assert(digits.take(k + 1).drop_last() =~= digits.take(k));
        assert(is_digit(digits[k]));
    } else {
        assert(digits.take(k) =~= digits);
    }
}

/// Reads a port number: decimal digits, with one `+` before them or without.
pub fn parse_port(text: &str) -> (r: Option<u16>)
    ensures
        r == port_value(text@),
{
    let chars = chars_of(text);
    let start: usize = if chars.len() > 0 && chars[0] == '+' {
        1
    } else {
        0
    };
    let ghost digits = digits_of(text@);
    assert(digits =~= chars@.skip(start as int));
    if chars.len() == start {
        return None;
    }
    let mut value: u32 = 0;
    let mut i: usize = start;
    assert(digits.take(0) =~= Seq::<char>::empty());
    while i < chars.len()
        invariant
            start <= i <= chars@.len(),
            digits == chars@.skip(start as int),
            digits == digits_of(text@),
            forall|k: int| 0 <= k < i - start ==> is_digit(#[trigger] digits[k]),
            value == decimal_value(digits.take(i - start)),
            value <= u16::MAX,
        decreases chars@.len() - i,
    {
        let c: char = chars[i];
        assert(digits[i - start] == c);
        if !(c >= '0' && c <= '9') {
            assert(!is_digit(digits[i - start]));
            return None;
        }
        assert(digits.take(i - start + 1).drop_last() =~= digits.take(i - start));
        assert(digits.take(i - start + 1).last() == c);
        let digit: u32 = c as u32 - '0' as u32;
        let next: u32 = value * 10 + digit;
        assert(next == decimal_value(digits.take(i - start + 1)));
        if next > 65535 {
            proof {
                if forall|k: int| 0 <= k < digits.len() ==> is_digit(#[trigger] digits[k]) {
                    lemma_decimal_grows(digits, i - start + 1);
                }
            }
            return None;
        }
        value = next;
        i = i + 1;
    }
    assert(digits.take(digits.len() as int) =~= digits);
    Some(value as u16)
}

// ---------------------------------------------------------------------------
// Checks

/// The value of the file, or else the value of the environment.
pub open spec fn first_of(file: Option<String>, env: Option<String>) -> Option<Seq<char>> {
    match file {
        Some(value) => Some(value@),
        None => opt_view(env),
    }
}

/// The port of the file, or else the number that the title of the
/// environment writes.
pub open spec fn port_of(file: Option<u16>, env: Option<String>) -> Option<u16> {
    match file {
        Some(port) => Some(port),
        None => match env {
            Some(text) => port_value(text@),
            None => None,
        },
    }
}

/// The value of the file, or else a copy of the value of the environment.
fn choose_text(file: Option<String>, env: &Option<String>) -> (r: Option<String>)
    ensures
        opt_view(r) == first_of(file, *env),
{
    match file {
        Some(value) => Some(value),
        None => match env {
            Some(value) => Some(value.clone()),
            None => None,
        },
    }
}

impl Check<CheckedSiteConfig> for SiteConfig {
    /// The checked settings where title, port and theme are known from the
    /// file or the environment; otherwise the title is named as missing,
    /// whichever of the three it was.
    fn check(self, env: &Environment) -> (r: Result<CheckedSiteConfig, Error>)
        ensures
            match r {
                Ok(checked) => {
                    &&& first_of(self.title, env.title) == Some(checked.title@)
                    &&& port_of(self.port, env.title) == Some(checked.port)
                    &&& first_of(self.theme, env.theme) == Some(checked.theme@)
                    &&& checked.description == self.description
                    &&& checked.lang == self.lang
                    &&& checked.base == self.base
                    &&& checked.host == self.host
                },
                Err(e) => {
                    &&& e@ == ErrorView::MissingFields("title"@)
                    &&& (first_of(self.title, env.title) is None || port_of(self.port, env.title)
                        is None || first_of(self.theme, env.theme) is None)
                },
            },
    {
        let SiteConfig { title, description, lang, base, host, port, theme } = self;
        let title: String = match choose_text(title, &env.title) {
            Some(title) => title,
            None => {
                return Err(Error::MissingFields("title".to_owned()));
            },
        };
        let port: u16 = match port {
            Some(port) => port,
            None => {
                let read: Option<u16> = match &env.title {
                    Some(text) => parse_port(text.as_str()),
                    None => None,
                };
                match read {
                    Some(port) => port,
                    None => {
                        return Err(Error::MissingFields("title".to_owned()));
                    },
                }
            },
        };
        let theme: String = match choose_text(theme, &env.theme) {
            Some(theme) => theme,
            None => {
                return Err(Error::MissingFields("title".to_owned()));
            },
        };
        Ok(CheckedSiteConfig { title, description, lang, base, host, port, theme })
    }
}

impl Check<CheckedGeneratorConfig> for GeneratorConfig {
    /// The checked settings where host and token are known from the file or
    /// the environment; otherwise the first of the two that is missing is
    /// named.
    fn check(self, env: &Environment) -> (r: Result<CheckedGeneratorConfig, Error>)
        ensures
            match r {
                Ok(checked) => {
                    &&& first_of(self.host, env.host) == Some(checked.host@)
                    &&& first_of(self.token, env.token) == Some(checked.token@)
                    &&& checked.namespaces == self.namespaces
                    &&& checked.build_command == self.build_command
                },
                Err(e) => if first_of(self.host, env.host) is None {
                    e@ == ErrorView::MissingFields("host"@)
                } else {
                    first_of(self.token, env.token) is None && e@ == ErrorView::MissingFields(
                        "token"@,
                    )
                },
            },
    {
        let GeneratorConfig { host, token, namespaces, build_command } = self;
        let host: String = match choose_text(host, &env.host) {
            Some(host) => host,
            None => {
                return Err(Error::MissingFields("host".to_owned()));
            },
        };
        let token: String = match choose_text(token, &env.token) {
            Some(token) => token,
            None => {
                return Err(Error::MissingFields("token".to_owned()));
            },
        };
        Ok(CheckedGeneratorConfig { host, token, namespaces, build_command })
    }
}

/// What the check of the site's settings gives, in a few words: whether all
/// three values are known.
pub open spec fn site_is_complete(site: SiteConfig, env: Environment) -> bool {
    first_of(site.title, env.title) is Some && port_of(site.port, env.title) is Some && first_of(
        site.theme,
        env.theme,
    ) is Some
}

/// Whether host and token of the generator's settings are known.
pub open spec fn generator_is_complete(generator: GeneratorConfig, env: Environment) -> bool {
    first_of(generator.host, env.host) is Some && first_of(generator.token, env.token) is Some
}

impl Check<(CheckedSiteConfig, CheckedGeneratorConfig)> for Config {
    /// Both checked settings where both checks pass; otherwise the error of
    /// the site's check, or else that of the generator's.
    fn check(self, env: &Environment) -> (r: Result<
        (CheckedSiteConfig, CheckedGeneratorConfig),
        Error,
    >)
        ensures
            r is Ok <==> site_is_complete(self.site, *env) && generator_is_complete(
                self.generator,
                *env,
            ),
            match r {
                Ok((site, generator)) => {
                    &&& first_of(self.site.title, env.title) == Some(site.title@)
                    &&& port_of(self.site.port, env.title) == Some(site.port)
                    &&& first_of(self.site.theme, env.theme) == Some(site.theme@)
                    &&& site.description == self.site.description
                    &&& site.lang == self.site.lang
                    &&& site.base == self.site.base
                    &&& site.host == self.site.host
                    &&& first_of(self.generator.host, env.host) == Some(generator.host@)
                    &&& first_of(self.generator.token, env.token) == Some(generator.token@)
                    &&& generator.namespaces == self.generator.namespaces
                    &&& generator.build_command == self.generator.build_command
                },
                Err(e) => if !site_is_complete(self.site, *env) {
                    e@ == ErrorView::MissingFields("title"@)
                } else if first_of(self.generator.host, env.host) is None {
                    e@ == ErrorView::MissingFields("host"@)
                } else {
                    e@ == ErrorView::MissingFields("token"@)
                },
            },
    {
        let Config { site, generator } = self;
        let site = match site.check(env) {
            Ok(site) => site,
            Err(e) => {
                return Err(e);
            },
        };
        let generator = match generator.check(env) {
            Ok(generator) => generator,
            Err(e) => {
                return Err(e);
            },
        };
        Ok((site, generator))
    }
}

// ---------------------------------------------------------------------------
// The settings file of the site builder

/// The settings file of the site builder for a site: it takes navigation
/// bar and sidebar from the files beside it and names title, language, base
/// path and description, the description empty where the site has none.
pub open spec fn config_js(site: CheckedSiteConfig) -> Seq<char> {
    "\n    import { defineConfig } from 'vitepress'\n    import nav from '../../nav.json'\n    import sidebar from '../../sidebar.json'\n    \n    import taskListPlugin from \"markdown-it-task-lists\"\n    import subPlugin from \"markdown-it-sub\"\n    \n    export default defineConfig({\n    themeConfig: {\n        \"nav\": [...nav,],\n        \"sidebar\": { ...sidebar },\n    },\n    title: \""@
        + site.title@
        + "\",\n    lang: \""@
        + site.lang@
        + "\",\n    base: \""@
        + site.base@
        + "\",\n    description: \""@
        + match site.description {
        Some(text) => text@,
        None => Seq::empty(),
    }
        + "\",\n    appearance: true,\n    })\n            "@
}

impl CheckedSiteConfig {
    /// The text of the settings file of the site builder.
    pub fn gen_js(&self) -> (r: String)
        ensures
            r@ == config_js(*self),
    {
        let mut r = "\n    import { defineConfig } from 'vitepress'\n    import nav from '../../nav.json'\n    import sidebar from '../../sidebar.json'\n    \n    import taskListPlugin from \"markdown-it-task-lists\"\n    import subPlugin from \"markdown-it-sub\"\n    \n    export default defineConfig({\n    themeConfig: {\n        \"nav\": [...nav,],\n        \"sidebar\": { ...sidebar },\n    },\n    title: \"".to_owned();
        r.append(self.title.as_str());
        r.append("\",\n    lang: \"");
        r.append(self.lang.as_str());
        r.append("\",\n    base: \"");
        r.append(self.base.as_str());
        r.append("\",\n    description: \"");
        let ghost before = r@;
        match &self.description {
            Some(text) => {
                r.append(text.as_str());
            },
            None => {
                assert(before + Seq::<char>::empty() =~= before);
            },
        }
        r.append("\",\n    appearance: true,\n    })\n            ");
        r
    }
}

} // verus!
