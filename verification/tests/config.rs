use yuque_ssg::config::{
    default_base, default_build_command, default_host, default_lang, parse_port, Check,
    CheckedGeneratorConfig, CheckedSiteConfig, Config, Environment, GeneratorConfig, Namespace,
    SiteConfig,
};
use yuque_ssg::error::Error;
use yuque_ssg::handler::{WebhookData, WebhookDataDetail};

fn no_env() -> Environment {
    Environment { title: None, theme: None, host: None, token: None }
}

fn site() -> SiteConfig {
    SiteConfig {
        title: Some("Site".into()),
        description: Some("about".into()),
        lang: default_lang(),
        base: default_base(),
        host: default_host(),
        port: Some(8080),
        theme: Some("https://example.com/theme.git".into()),
    }
}

fn generator() -> GeneratorConfig {
    GeneratorConfig {
        host: Some("https://kb.example.com".into()),
        token: Some("SECRET-REDACTED".into()),
        namespaces: vec![Namespace { target: "team/kb".into(), toc: true, text: "KB".into(), nav: String::new() }],
        build_command: default_build_command(),
    }
}

#[test]
fn the_defaults() {
    assert_eq!(default_base(), "/");
    assert_eq!(default_lang(), "zh-CN");
    assert_eq!(default_host(), "0.0.0.0");
    assert_eq!(default_build_command(), "npm run docs:build");
}

#[test]
fn a_complete_site_passes() {
    assert_eq!(
        site().check(&no_env()),
        Ok(CheckedSiteConfig {
            title: "Site".into(),
            description: Some("about".into()),
            lang: "zh-CN".into(),
            base: "/".into(),
            host: "0.0.0.0".into(),
            port: 8080,
            theme: "https://example.com/theme.git".into(),
        })
    );
}

#[test]
fn the_environment_fills_what_the_file_lacks() {
    let env = Environment { title: Some("3000".into()), theme: Some("./theme".into()), host: None, token: None };
    let bare = SiteConfig { title: None, port: None, theme: None, ..site() };
    let checked = bare.check(&env).unwrap();
    assert_eq!(checked.title, "3000");
    assert_eq!(checked.port, 3000);
    assert_eq!(checked.theme, "./theme");
    let kept = site().check(&env).unwrap();
    assert_eq!((kept.title.as_str(), kept.port), ("Site", 8080));
}

#[test]
fn whatever_the_site_lacks_the_title_is_named() {
    let missing = Err(Error::MissingFields("title".into()));
    assert_eq!(SiteConfig { title: None, ..site() }.check(&no_env()), missing);
    assert_eq!(SiteConfig { port: None, ..site() }.check(&no_env()), missing);
    assert_eq!(SiteConfig { theme: None, ..site() }.check(&no_env()), missing);
    let words = Environment { title: Some("My Site".into()), ..no_env() };
    assert_eq!(SiteConfig { port: None, ..site() }.check(&words), missing);
}

#[test]
fn the_generator_names_what_it_lacks() {
    assert_eq!(
        generator().check(&no_env()),
        Ok(CheckedGeneratorConfig {
            host: "https://kb.example.com".into(),
            token: "SECRET-REDACTED".into(),
            namespaces: generator().namespaces,
            build_command: "npm run docs:build".into(),
        })
    );
    assert_eq!(
        GeneratorConfig { host: None, token: None, ..generator() }.check(&no_env()),
        Err(Error::MissingFields("host".into()))
    );
    assert_eq!(
        GeneratorConfig { token: None, ..generator() }.check(&no_env()),
        Err(Error::MissingFields("token".into()))
    );
    let env = Environment { host: Some("h".into()), token: Some("t".into()), ..no_env() };
    let checked = GeneratorConfig { host: None, token: None, ..generator() }.check(&env).unwrap();
    assert_eq!((checked.host.as_str(), checked.token.as_str()), ("h", "t"));
}

#[test]
fn the_whole_configuration_checks_the_site_first() {
    let both = Config { site: site(), generator: generator() }.check(&no_env()).unwrap();
    assert_eq!(both.0.port, 8080);
    assert_eq!(both.1.namespaces.len(), 1);
    let broken = Config {
        site: SiteConfig { theme: None, ..site() },
        generator: GeneratorConfig { host: None, ..generator() },
    };
    assert_eq!(broken.check(&no_env()), Err(Error::MissingFields("title".into())));
    let half = Config { site: site(), generator: GeneratorConfig { token: None, ..generator() } };
    assert_eq!(half.check(&no_env()), Err(Error::MissingFields("token".into())));
}

#[test]
fn a_port_is_digits_behind_at_most_one_plus() {
    assert_eq!(parse_port("0"), Some(0));
    assert_eq!(parse_port("8080"), Some(8080));
    assert_eq!(parse_port("+443"), Some(443));
    assert_eq!(parse_port("000080"), Some(80));
    assert_eq!(parse_port("65535"), Some(65535));
    assert_eq!(parse_port("65536"), None);
    assert_eq!(parse_port("99999999999999999999"), None);
    for bad in ["", "+", "-1", "++1", "80 ", " 80", "8o", "١٢"] {
        assert_eq!(parse_port(bad), None);
    }
    for text in ["0", "8080", "+443", "000080", "65535", "65536", "", "+", "-1", "80 ", "１２"] {
        assert_eq!(parse_port(text), text.parse::<u16>().ok());
    }
}

#[test]
fn a_namespace_is_copied_whole() {
    let ns = Namespace { target: "t".into(), toc: false, text: "x".into(), nav: "true".into() };
    assert_eq!(ns.clone(), ns);
}

#[test]
fn a_change_notice_names_its_knowledge_base() {
    let notice = WebhookData { data: WebhookDataDetail { book_id: -17 } };
    assert_eq!(notice.book_id(), -17);
}

#[test]
fn the_settings_file_of_the_site_builder() {
    let site = CheckedSiteConfig {
        title: "My Site".into(),
        description: Some("All of it".into()),
        lang: "en".into(),
        base: "/kb/".into(),
        host: "0.0.0.0".into(),
        port: 80,
        theme: "t".into(),
    };
    let text = site.gen_js();
    assert!(text.starts_with("\n    import { defineConfig } from 'vitepress'\n    import nav from '../../nav.json'\n"));
    assert!(text.contains("    export default defineConfig({\n    themeConfig: {\n        \"nav\": [...nav,],\n        \"sidebar\": { ...sidebar },\n    },\n"));
    assert!(text.ends_with("    title: \"My Site\",\n    lang: \"en\",\n    base: \"/kb/\",\n    description: \"All of it\",\n    appearance: true,\n    })\n            "));
    let bare = CheckedSiteConfig { description: None, ..site };
    assert!(bare.gen_js().contains("    description: \"\",\n"));
    assert_eq!(bare.gen_js().len() + "All of it".len(), text.len());
}
