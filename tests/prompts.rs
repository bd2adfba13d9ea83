use hecate_web::personality::{
    agents_dir_candidates, build_system_prompt, list_roles, non_blank, parse_agent_file, personality_info,
    prompt_body, role_file, unescape_unicode, PromptError,
};

#[test]
fn agent_file_front_matter() {
    let text = "\n---\nid: scout\nname: \"Scout\"\nrole: dna\nicon: \"\\u25C7\"\ndescription: Finds things\nother: x\n---\n\nYou are a scout.\n";
    let a = parse_agent_file(text).unwrap();
    assert_eq!(a.id, "scout");
    assert_eq!(a.name, "Scout");
    assert_eq!(a.role, "dna");
    assert_eq!(a.icon, "\u{25C7}");
    assert_eq!(a.description, "Finds things");
    assert_eq!(a.prompt, "You are a scout.\n");
}

#[test]
fn agent_file_without_id_or_front_matter() {
    assert!(parse_agent_file("---\nname: x\n---\nbody").is_none());
    assert!(parse_agent_file("just text").is_none());
    assert!(parse_agent_file("---\nid: a\nno closing line").is_none());
    assert!(parse_agent_file("--- id: a\n---\n").is_none());
}

#[test]
fn agent_file_with_crlf_lines() {
    let a = parse_agent_file("---\r\nid: a\r\nicon: x\r\n---\r\n\r\nbody").unwrap();
    assert_eq!(a.id, "a");
    assert_eq!(a.icon, "x");
    assert_eq!(a.prompt, "body");
}

#[test]
fn unicode_escapes() {
    assert_eq!(unescape_unicode("a\\u0041b"), "aAb");
    assert_eq!(unescape_unicode("\\u12"), "\u{12}");
    assert_eq!(unescape_unicode("\\uZZZZ!"), "\\uZZZZ!");
    assert_eq!(unescape_unicode("\\uD800x"), "\\uD800x");
    assert_eq!(unescape_unicode("\\n\\"), "\\n\\");
    assert_eq!(unescape_unicode("\\u+41"), "A");
    assert_eq!(unescape_unicode("plain"), "plain");
}

#[test]
fn raw_prompt_body() {
    assert_eq!(prompt_body("---\nid: a\n---\n\nHello".to_string()), "Hello");
    assert_eq!(prompt_body("No front matter".to_string()), "No front matter");
}

#[test]
fn system_prompt_parts() {
    let p = build_system_prompt(true, Some("P".to_string()), None, Some("R".to_string()));
    assert_eq!(p, Ok("P\n\n---\n\nR".to_string()));
    assert_eq!(build_system_prompt(true, None, Some("A".to_string()), None), Ok("A".to_string()));
    assert_eq!(build_system_prompt(true, None, None, None), Err(PromptError::NoPersonalityFiles));
    assert_eq!(build_system_prompt(false, Some("P".to_string()), None, None), Err(PromptError::AgentsNotFound));
}

#[test]
fn roles_table() {
    let r = list_roles(&vec![true, false, true]);
    assert_eq!(r.len(), 4);
    assert_eq!((r[0].code.as_str(), r[0].name.as_str(), r[0].available), ("dna", "Discovery & Analysis", true));
    assert!(!r[1].available && r[2].available && !r[3].available);
    assert_eq!(r[3].code, "dno");
    assert_eq!(role_file("tni"), Some("philosophy/HECATE_TESTING_N_IMPLEMENTATION.md".to_string()));
    assert_eq!(role_file("xyz"), None);
}

#[test]
fn personality_summary() {
    let info = personality_info(Some("/a".to_string()), true, false, &vec![true; 4]);
    assert!(info.personality_loaded && !info.alc_loaded);
    assert_eq!(info.roles.len(), 4);
    let none = personality_info(None, true, true, &vec![]);
    assert!(!none.personality_loaded && none.roles.is_empty());
}

#[test]
fn blank_files_do_not_count() {
    assert_eq!(non_blank(" \n\t".to_string()), None);
    assert_eq!(non_blank(" x ".to_string()), Some(" x ".to_string()));
    let c = agents_dir_candidates("/home/u", Some("/work"));
    assert_eq!(c, vec!["/home/u/.hecate/agents", "/home/u/work/github.com/hecate-social/hecate-agents", "/work/.hecate/agents"]);
}
