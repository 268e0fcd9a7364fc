use auto_shortcut::template::{render_template, render_template_at, TemplateEngine};
use auto_shortcut::value::{Member, Value};

fn text(key: &str, value: &str) -> Member {
    Member { key: key.to_string(), value: Value::Text(value.to_string()) }
}

fn number(key: &str, value: &str) -> Member {
    Member { key: key.to_string(), value: Value::Number(value.to_string()) }
}

fn object(members: Vec<Member>) -> Value {
    Value::Object(members)
}

#[test]
fn test_variable_replacement() {
    let template = "Hello, {name}!";
    let context = object(vec![text("name", "World")]);

    let result = render_template(template, &context).unwrap();
    assert_eq!(result, "Hello, World!");
}

#[test]
fn test_ternary_operator() {
    let template = "{age >= 18 ? 'Adult' : 'Minor'}";
    let context = object(vec![number("age", "20")]);

    let result = render_template(template, &context).unwrap();
    assert_eq!(result, "Adult");

    let context = object(vec![number("age", "16")]);

    let result = render_template(template, &context).unwrap();
    assert_eq!(result, "Minor");
}

#[test]
fn test_default_value() {
    let template = "Hello, {username ?? 'Guest'}!";
    let context = object(vec![]);

    let result = render_template(template, &context).unwrap();
    assert_eq!(result, "Hello, Guest!");

    let context = object(vec![text("username", "Admin")]);

    let result = render_template(template, &context).unwrap();
    assert_eq!(result, "Hello, Admin!");
}

#[test]
fn test_filters() {
    let template = "{name | upper}";
    let context = object(vec![text("name", "john doe")]);

    let result = render_template(template, &context).unwrap();
    assert_eq!(result, "JOHN DOE");

    let template = "{name | upper | slice:0,4}";
    let result = render_template(template, &context).unwrap();
    assert_eq!(result, "JOHN");

    let template = "{name | capitalize}";
    let context = object(vec![text("name", "john doe")]);
    let result = render_template(template, &context).unwrap();
    assert_eq!(result, "John doe");

    let template = "{empty | capitalize}";
    let context = object(vec![text("empty", "")]);
    let result = render_template(template, &context).unwrap();
    assert_eq!(result, "");

    let template = "{greeting | replace:Hello,Hi}";
    let context = object(vec![text("greeting", "Hello, World!")]);
    let result = render_template(template, &context).unwrap();
    assert_eq!(result, "Hi, World!");

    let template = "{path | replace:'/api','/v2/api'}";
    let context = object(vec![text("path", "/api/users")]);
    let result = render_template(template, &context).unwrap();
    assert_eq!(result, "/v2/api/users");
}

#[test]
fn test_nested_ternary_operator() {
    let template = "{product ? product : {desc ? desc : stem}}";

    let context = object(vec![
        text("product", "高级产品"),
        text("desc", "产品描述"),
        text("stem", "基础内容"),
    ]);
    let result = render_template(template, &context).unwrap();
    assert_eq!(result, "高级产品");

    let context = object(vec![
        text("product", ""),
        text("desc", "产品描述"),
        text("stem", "基础内容"),
    ]);
    let result = render_template(template, &context).unwrap();
    assert_eq!(result, "产品描述");

    let context = object(vec![
        text("product", ""),
        text("desc", ""),
        text("stem", "基础内容"),
    ]);
    let result = render_template(template, &context).unwrap();
    assert_eq!(result, "基础内容");
}

#[test]
fn engine_remembers_first_rendering() {
    let mut engine = TemplateEngine::with_offset(0);
    let first = object(vec![text("name", "one")]);
    let second = object(vec![text("name", "two")]);
    assert_eq!(engine.render("{name}", &first).unwrap(), "one");
    assert_eq!(engine.render("{name}", &second).unwrap(), "one");
    assert_eq!(engine.render("{name}!", &second).unwrap(), "two!");
}

#[test]
fn malformed_comparison_is_an_error() {
    let context = object(vec![number("a", "1")]);
    let result = render_template_at("{a == 1 == 1 ? 'x' : 'y'}", &context, 0);
    assert_eq!(result, Err("比较表达式格式错误".to_string()));
}

#[test]
fn unclosed_brace_is_kept() {
    let context = object(vec![text("name", "n")]);
    assert_eq!(render_template_at("a{name", &context, 0).unwrap(), "a{name");
    assert_eq!(render_template_at("a}{name}", &context, 0).unwrap(), "a}n");
}

#[test]
fn simple_expressions() {
    let context = object(vec![
        text("a", "x"),
        object_member("user", vec![text("name", "Ann")]),
        Member { key: "flag".to_string(), value: Value::Bool(true) },
        Member { key: "nothing".to_string(), value: Value::Null },
    ]);
    assert_eq!(render_template_at("{'lit'}", &context, 0).unwrap(), "lit");
    assert_eq!(render_template_at("{\"lit\"}", &context, 0).unwrap(), "lit");
    assert_eq!(render_template_at("{12.5}", &context, 0).unwrap(), "12.5");
    assert_eq!(render_template_at("{1e5}", &context, 0).unwrap(), "1e5");
    assert_eq!(render_template_at("{a + '-' + a}", &context, 0).unwrap(), "x-x");
    assert_eq!(render_template_at("{user.name}", &context, 0).unwrap(), "Ann");
    assert_eq!(render_template_at("{user.age}", &context, 0).unwrap(), "");
    assert_eq!(render_template_at("{a.b}", &context, 0).unwrap(), "");
    assert_eq!(render_template_at("{flag}", &context, 0).unwrap(), "true");
    assert_eq!(render_template_at("{nothing}", &context, 0).unwrap(), "");
    assert_eq!(render_template_at("{user}", &context, 0).unwrap(), "");
}

fn object_member(key: &str, members: Vec<Member>) -> Member {
    Member { key: key.to_string(), value: Value::Object(members) }
}

#[test]
fn conditions() {
    let context = object(vec![
        number("n", "10"),
        text("s", "abc"),
        text("zero", "0"),
        text("no", "false"),
    ]);
    let check = |t: &str| render_template_at(t, &context, 0).unwrap();
    assert_eq!(check("{n > 9 ? 'y' : 'n'}"), "y");
    assert_eq!(check("{n > 9.5 ? 'y' : 'n'}"), "y");
    assert_eq!(check("{n < 9 ? 'y' : 'n'}"), "n");
    assert_eq!(check("{n == 10.0 ? 'y' : 'n'}"), "y");
    assert_eq!(check("{n != 10 ? 'y' : 'n'}"), "n");
    assert_eq!(check("{n <= 10 ? 'y' : 'n'}"), "y");
    assert_eq!(check("{s == 'abc' ? 'y' : 'n'}"), "y");
    assert_eq!(check("{s < 'abd' ? 'y' : 'n'}"), "y");
    assert_eq!(check("{s > 'ab' ? 'y' : 'n'}"), "y");
    assert_eq!(check("{n > 9 && s == 'abc' ? 'y' : 'n'}"), "y");
    assert_eq!(check("{n > 99 && s == 'abc' ? 'y' : 'n'}"), "n");
    assert_eq!(check("{n > 99 || s == 'abc' ? 'y' : 'n'}"), "y");
    assert_eq!(check("{zero ? 'y' : 'n'}"), "n");
    assert_eq!(check("{no ? 'y' : 'n'}"), "n");
    assert_eq!(check("{missing ? 'y' : 'n'}"), "n");
    assert_eq!(check("{s ? 'y' : 'n'}"), "y");
    assert_eq!(check("{s ? 'y'}"), "");
}

#[test]
fn more_filters() {
    let context = object(vec![
        text("name", "  hello wORLD  "),
        text("word", "héllo"),
        text("when", "2024-03-05 10:20:30"),
        text("empty", "   "),
    ]);
    let check = |t: &str| render_template_at(t, &context, 3600).unwrap();
    assert_eq!(check("{name | trim}"), "hello wORLD");
    assert_eq!(check("{name | trim | lower}"), "hello world");
    assert_eq!(check("{name | trim | title}"), "Hello World");
    assert_eq!(check("{name | TRIM | length}"), "11");
    assert_eq!(check("{word | length}"), "5");
    assert_eq!(check("{word | slice:1}"), "éllo");
    assert_eq!(check("{word | slice:-3}"), "llo");
    assert_eq!(check("{word | slice:1,-1}"), "éll");
    assert_eq!(check("{word | slice:'1 3'}"), "él");
    assert_eq!(check("{word | slice:3,1}"), "");
    assert_eq!(check("{word | slice:x}"), "héllo");
    assert_eq!(check("{word | truncate:2}"), "hé");
    assert_eq!(check("{word | truncate:99}"), "héllo");
    assert_eq!(check("{word | truncate:-1}"), "héllo");
    assert_eq!(check("{word | cut:l}"), "héo");
    assert_eq!(check("{empty | default:'none'}"), "none");
    assert_eq!(check("{word | default:'none'}"), "héllo");
    assert_eq!(check("{word | unknown}"), "héllo");
    assert_eq!(check("{word | replace:\"l\",\"L\"}"), "héLLo");
    assert_eq!(check("{when | date:'%Y/%m/%d %H'}"), "2024/03/05 11");
    assert_eq!(check("{word | date:'%Y'}"), "héllo");
}

#[test]
fn ternary_parts() {
    let context = object(vec![text("a", "x"), text("empty", "")]);
    let check = |t: &str| render_template_at(t, &context, 0).unwrap();
    assert_eq!(check("{a ? {a | upper} : 'none'}"), "");
    assert_eq!(check("{empty ? 'some' : {a | upper}}"), "X");
    assert_eq!(check("{empty ? 'some' : a + '!'}"), "x!");
    assert_eq!(check("{a ? a : 'b:c'}"), "x");
    assert_eq!(check("{empty ? a : 'b:c'}"), "b:c");
    assert_eq!(check("{a == 'x' ? yes}"), "");
    // The colon is looked for behind as many characters as the text
    // before the question mark has bytes.
    assert_eq!(check("{'é' ? 'a' : 'b'}"), "a");
    assert_eq!(check("{'文文文文' ? 'a':'b'}"), "");
}
