//! Laws of the parser: a definition of several sections gives the messages of its
//! sections.
use vstd::prelude::*;
use crate::interface::{ActionModel, ConstantModel, FieldModel, MessageModel, ServiceModel};
use crate::parser::{
    action_model, declarations, declared, message_model, section, sections_from, service_model,
    Declared, ParseFault,
};
use crate::text::{find, find_is_first, lines, trim, trim_end, trim_start, white, without_cr};

verus! {

/// White space at the end does not matter to what is left between white space.
pub proof fn lemma_trim_shorter(s: Seq<char>)
    requires
        s.len() > 0,
        white(s.last()),
    ensures
        trim(s) == trim(s.drop_last()),
    decreases s.len(),
{
    let t = s.drop_last();
    if white(s[0]) {
        if s.len() == 1 {
            assert(s.drop_first() =~= Seq::empty());
            assert(t =~= Seq::empty());
        } else {
            assert(s.drop_first().drop_last() =~= t.drop_first());
            lemma_trim_shorter(s.drop_first());
        }
    } else {
        assert(t.len() > 0 && t[0] == s[0]);
        assert(trim_start(s) == s);
        assert(trim_start(t) == t);
    }
}

proof fn lemma_trim_without_cr(s: Seq<char>)
    ensures
        trim(without_cr(s)) == trim(s),
{
    if s.len() > 0 && s.last() == '\r' {
        lemma_trim_shorter(s);
    }
}

/// The lines of a text that ends in a newline, with more behind it.
pub proof fn lemma_lines_concat(a: Seq<char>, b: Seq<char>)
    requires
        a.len() == 0 || a.last() == '\n',
    ensures
        lines(a + b) == lines(a) + lines(b),
    decreases a.len(),
{
    let s = a + b;
    if a.len() == 0 {
        assert(s =~= b);
        assert(lines(a) + lines(b) =~= lines(b));
    } else {
        find_is_first(a, '\n');
        find_is_first(s, '\n');
        let i = find(a, '\n');
        assert(a[a.len() - 1] == '\n');
        assert(a.contains('\n'));
        assert(s[i] == '\n');
        if find(s, '\n') < i {
            assert(a[find(s, '\n')] == '\n');
        }
        assert(find(s, '\n') == i);
        assert(s.take(i) =~= a.take(i));
        assert(s.skip(i + 1) =~= a.skip(i + 1) + b);
        let c = a.skip(i + 1);
        if c.len() > 0 {
            assert(c.last() == a.last());
        }
        lemma_lines_concat(c, b);
        assert(lines(s) =~= lines(a) + lines(b));
    }
}

/// No line has a newline in it.
proof fn lemma_lines_have_no_newline(s: Seq<char>)
    ensures
        forall|i: int| 0 <= i < lines(s).len() ==> !(#[trigger] lines(s)[i]).contains('\n'),
    decreases s.len(),
{
    let all = lines(s);
    find_is_first(s, '\n');
    let i = find(s, '\n');
    if s.len() > 0 && i < s.len() {
        let rest = s.skip(i + 1);
        lemma_lines_have_no_newline(rest);
        let first = without_cr(s.take(i));
        assert(all == seq![first] + lines(rest));
        assert forall|j: int| 0 <= j < all.len() implies !(#[trigger] all[j]).contains('\n') by {
            if j == 0 {
                assert(all[0] == first);
                if first.contains('\n') {
                    let k = choose|k: int| 0 <= k < first.len() && first[k] == '\n';
                    assert(s[k] == '\n');
                }
            } else {
                assert(all[j] == lines(rest)[j - 1]);
            }
        }
    }
}

/// Lines as a text again, each with a newline behind it.
pub open spec fn rejoined(l: Seq<Seq<char>>) -> Seq<char>
    decreases l.len(),
{
    if l.len() == 0 {
        Seq::empty()
    } else {
        l[0] + seq!['\n'] + rejoined(l.drop_first())
    }
}

proof fn lemma_lines_of_rejoined(l: Seq<Seq<char>>)
    requires
        forall|i: int| 0 <= i < l.len() ==> !(#[trigger] l[i]).contains('\n'),
    ensures
        lines(rejoined(l)) == l.map_values(|x: Seq<char>| without_cr(x)),
    decreases l.len(),
{
    let f = |x: Seq<char>| without_cr(x);
    if l.len() == 0 {
        assert(l.map_values(f) =~= Seq::empty());
    } else {
        let t = l.drop_first();
        assert forall|i: int| 0 <= i < t.len() implies !(#[trigger] t[i]).contains('\n') by {
            assert(t[i] == l[i + 1]);
        }
        lemma_lines_of_rejoined(t);
        let head = l[0] + seq!['\n'];
        let s = rejoined(l);
        assert(s == head + rejoined(t));
        assert(head.last() == '\n');
        lemma_lines_concat(head, rejoined(t));
        find_is_first(head, '\n');
        assert(head[l[0].len() as int] == '\n');
        if find(head, '\n') < l[0].len() {
            assert(l[0][find(head, '\n')] == '\n');
            assert(l[0].contains('\n'));
        }
        assert(find(head, '\n') == l[0].len());
        assert(head.take(l[0].len() as int) =~= l[0]);
        assert(head.skip(l[0].len() as int + 1) =~= Seq::empty());
        assert(lines(head.skip(l[0].len() as int + 1)) == Seq::<Seq<char>>::empty());
        assert(lines(head) =~= seq![without_cr(l[0])]);
        assert(l.map_values(f) =~= seq![without_cr(l[0])] + t.map_values(f));
    }
}

/// Whether no line separates sections.
pub open spec fn undivided(l: Seq<Seq<char>>) -> bool {
    forall|i: int| 0 <= i < l.len() ==> trim(#[trigger] l[i]) != "---"@
}

proof fn lemma_sections_concat(done: Seq<Seq<char>>, a: Seq<Seq<char>>, b: Seq<Seq<char>>)
    ensures
        sections_from(done, a + b) == sections_from(sections_from(done, a), b),
    decreases a.len(),
{
    if a.len() == 0 {
        assert(a + b =~= b);
    } else {
        assert((a + b).drop_first() =~= a.drop_first() + b);
        assert((a + b)[0] == a[0]);
        if trim(a[0]) == "---"@ {
            lemma_sections_concat(done.push(Seq::empty()), a.drop_first(), b);
        } else {
            lemma_sections_concat(
                done.update(done.len() - 1, done.last() + a[0] + seq!['\n']),
                a.drop_first(),
                b,
            );
        }
    }
}

proof fn lemma_undivided_section(done: Seq<Seq<char>>, l: Seq<Seq<char>>)
    requires
        done.len() > 0,
        undivided(l),
    ensures
        sections_from(done, l) == done.update(done.len() - 1, done.last() + rejoined(l)),
    decreases l.len(),
{
    if l.len() == 0 {
        assert(done.last() + rejoined(l) =~= done.last());
        assert(done.update(done.len() - 1, done.last()) =~= done);
    } else {
        let t = l.drop_first();
        let next = done.update(done.len() - 1, done.last() + l[0] + seq!['\n']);
        assert forall|i: int| 0 <= i < t.len() implies trim(#[trigger] t[i]) != "---"@ by {
            assert(t[i] == l[i + 1]);
        }
        assert(trim(l[0]) != "---"@);
        lemma_undivided_section(next, t);
        assert(next.last() + rejoined(t) =~= done.last() + rejoined(l));
        assert(next.update(next.len() - 1, next.last() + rejoined(t)) =~= done.update(
            done.len() - 1,
            done.last() + rejoined(l),
        ));
    }
}

/// Where lines declare something, so do the lines without carriage returns.
proof fn lemma_declarations_without_cr(
    l: Seq<Seq<char>>,
    pkg: Seq<char>,
    fields: Seq<FieldModel>,
    constants: Seq<ConstantModel>,
)
    requires
        declarations(l, pkg, fields, constants) is Ok,
    ensures
        declarations(l.map_values(|x: Seq<char>| without_cr(x)), pkg, fields, constants)
            == declarations(l, pkg, fields, constants),
    decreases l.len(),
{
    let f = |x: Seq<char>| without_cr(x);
    let k = l.map_values(f);
    if l.len() == 0 {
    } else {
        lemma_trim_without_cr(l[0]);
        assert(k[0] == without_cr(l[0]));
        assert(declared(k[0], pkg) == declared(l[0], pkg));
        assert(k.drop_first() =~= l.drop_first().map_values(f));
        match declared(l[0], pkg) {
            Ok(Declared::Nothing) => {
                lemma_declarations_without_cr(l.drop_first(), pkg, fields, constants);
            },
            Ok(Declared::Constant(c)) => {
                lemma_declarations_without_cr(l.drop_first(), pkg, fields, constants.push(c));
            },
            Ok(Declared::Field(x)) => {
                lemma_declarations_without_cr(l.drop_first(), pkg, fields.push(x), constants);
            },
            Err(_) => {},
        }
    }
}

/// A body and its lines put together again define the same message.
proof fn lemma_rejoined_message(name: Seq<char>, pkg: Seq<char>, body: Seq<char>)
    requires
        message_model(name, pkg, body) is Ok,
    ensures
        message_model(name, pkg, rejoined(lines(body))) == message_model(name, pkg, body),
{
    lemma_lines_have_no_newline(body);
    lemma_lines_of_rejoined(lines(body));
    lemma_declarations_without_cr(lines(body), pkg, Seq::empty(), Seq::empty());
}

proof fn lemma_bar()
    ensures
        lines("---\n"@) == seq!["---"@],
        trim("---"@) == "---"@,
        "---\n"@.len() > 0,
        "---\n"@.last() == '\n',
{
    let bar = "---\n"@;
    reveal_strlit("---\n");
    reveal_strlit("---");
    find_is_first(bar, '\n');
    assert(bar[3] == '\n' && bar[0] == '-' && bar[1] == '-' && bar[2] == '-');
    assert(find(bar, '\n') == 3);
    assert(bar.take(3) =~= "---"@);
    assert(bar.skip(4) =~= Seq::empty());
    assert(lines(bar.skip(4)) == Seq::<Seq<char>>::empty());
    assert(lines(bar) =~= seq!["---"@]);
    let s = "---"@;
    assert(s.len() == 3 && s[0] == '-' && s.last() == '-');
    assert(trim_start(s) == s);
    assert(trim_end(s) == s);
}

proof fn lemma_two_sections(a: Seq<Seq<char>>, b: Seq<Seq<char>>)
    requires
        undivided(a),
        undivided(b),
    ensures
        sections_from(seq![Seq::<char>::empty()], a + (seq!["---"@] + b)) == seq![
            rejoined(a),
            rejoined(b),
        ],
{
    let start = seq![Seq::<char>::empty()];
    let rest = seq!["---"@] + b;
    lemma_bar();
    lemma_sections_concat(start, a, rest);
    lemma_undivided_section(start, a);
    assert(Seq::<char>::empty() + rejoined(a) =~= rejoined(a));
    let first = seq![rejoined(a)];
    assert(sections_from(start, a) =~= first);
    assert(rest.drop_first() =~= b);
    assert(rest[0] == "---"@);
    let open = first.push(Seq::empty());
    assert(sections_from(first, rest) == sections_from(open, b));
    lemma_undivided_section(open, b);
    assert(Seq::<char>::empty() + rejoined(b) =~= rejoined(b));
    assert(sections_from(open, b) =~= seq![rejoined(a), rejoined(b)]);
}

proof fn lemma_service_lines(a: Seq<char>, b: Seq<char>)
    requires
        a.len() == 0 || a.last() == '\n',
    ensures
        lines(a + "---\n"@ + b) == lines(a) + (seq!["---"@] + lines(b)),
{
    let bar = "---\n"@;
    lemma_bar();
    assert(a + bar + b =~= a + (bar + b));
    lemma_lines_concat(a, bar + b);
    lemma_lines_concat(bar, b);
}

proof fn lemma_service_sections(a: Seq<char>, b: Seq<char>)
    requires
        a.len() == 0 || a.last() == '\n',
        undivided(lines(a)),
        undivided(lines(b)),
    ensures
        section(a + "---\n"@ + b, 0) == rejoined(lines(a)),
        section(a + "---\n"@ + b, 1) == rejoined(lines(b)),
{
    lemma_service_lines(a, b);
    lemma_two_sections(lines(a), lines(b));
}

/// A service body of two parts with the separator between them gives the messages that
/// the parts define on their own.
pub proof fn service_has_the_messages_of_its_parts(
    name: Seq<char>,
    pkg: Seq<char>,
    a: Seq<char>,
    b: Seq<char>,
)
    requires
        a.len() == 0 || a.last() == '\n',
        undivided(lines(a)),
        undivided(lines(b)),
        message_model(name + "_Request"@, pkg, a) is Ok,
        message_model(name + "_Response"@, pkg, b) is Ok,
    ensures
        service_model(name, pkg, a + "---\n"@ + b) == Ok::<ServiceModel, ParseFault>(
            ServiceModel {
                name,
                request: message_model(name + "_Request"@, pkg, a)->Ok_0,
                response: message_model(name + "_Response"@, pkg, b)->Ok_0,
            },
        ),
{
    lemma_service_sections(a, b);
    lemma_rejoined_message(name + "_Request"@, pkg, a);
    lemma_rejoined_message(name + "_Response"@, pkg, b);
}

proof fn lemma_three_sections(a: Seq<Seq<char>>, b: Seq<Seq<char>>, c: Seq<Seq<char>>)
    requires
        undivided(a),
        undivided(b),
        undivided(c),
    ensures
        sections_from(
            seq![Seq::<char>::empty()],
            a + (seq!["---"@] + (b + (seq!["---"@] + c))),
        ) == seq![rejoined(a), rejoined(b), rejoined(c)],
{
    let start = seq![Seq::<char>::empty()];
    let last = seq!["---"@] + c;
    let two = a + (seq!["---"@] + b);
    lemma_bar();
    lemma_two_sections(a, b);
    assert(a + (seq!["---"@] + (b + last)) =~= two + last);
    lemma_sections_concat(start, two, last);
    let done = seq![rejoined(a), rejoined(b)];
    let open = done.push(Seq::empty());
    assert(last.drop_first() =~= c);
    assert(last[0] == "---"@);
    assert(sections_from(done, last) == sections_from(open, c));
    lemma_undivided_section(open, c);
    assert(Seq::<char>::empty() + rejoined(c) =~= rejoined(c));
    assert(sections_from(open, c) =~= seq![rejoined(a), rejoined(b), rejoined(c)]);
}

proof fn lemma_action_sections(a: Seq<char>, b: Seq<char>, c: Seq<char>)
    requires
        a.len() == 0 || a.last() == '\n',
        b.len() == 0 || b.last() == '\n',
        undivided(lines(a)),
        undivided(lines(b)),
        undivided(lines(c)),
    ensures
        section(a + "---\n"@ + b + "---\n"@ + c, 0) == rejoined(lines(a)),
        section(a + "---\n"@ + b + "---\n"@ + c, 1) == rejoined(lines(b)),
        section(a + "---\n"@ + b + "---\n"@ + c, 2) == rejoined(lines(c)),
{
    let bar = "---\n"@;
    let rest = b + bar + c;
    assert(a + bar + b + bar + c =~= a + bar + rest);
    lemma_service_lines(a, rest);
    lemma_service_lines(b, c);
    lemma_three_sections(lines(a), lines(b), lines(c));
}

/// An action body of three parts with separators between them gives the messages that
/// the parts define on their own.
pub proof fn action_has_the_messages_of_its_parts(
    name: Seq<char>,
    pkg: Seq<char>,
    a: Seq<char>,
    b: Seq<char>,
    c: Seq<char>,
)
    requires
        a.len() == 0 || a.last() == '\n',
        b.len() == 0 || b.last() == '\n',
        undivided(lines(a)),
        undivided(lines(b)),
        undivided(lines(c)),
        message_model(name + "_Goal"@, pkg, a) is Ok,
        message_model(name + "_Result"@, pkg, b) is Ok,
        message_model(name + "_Feedback"@, pkg, c) is Ok,
    ensures
        action_model(name, pkg, a + "---\n"@ + b + "---\n"@ + c) == Ok::<ActionModel, ParseFault>(
            ActionModel {
                name,
                goal: message_model(name + "_Goal"@, pkg, a)->Ok_0,
                result: message_model(name + "_Result"@, pkg, b)->Ok_0,
                feedback: message_model(name + "_Feedback"@, pkg, c)->Ok_0,
            },
        ),
{
    lemma_action_sections(a, b, c);
    lemma_rejoined_message(name + "_Goal"@, pkg, a);
    lemma_rejoined_message(name + "_Result"@, pkg, b);
    lemma_rejoined_message(name + "_Feedback"@, pkg, c);
}

/// A service body without a separator is a request; the response has nothing in it.
pub proof fn service_without_separator_has_an_empty_response(
    name: Seq<char>,
    pkg: Seq<char>,
    a: Seq<char>,
)
    requires
        undivided(lines(a)),
        message_model(name + "_Request"@, pkg, a) is Ok,
    ensures
        service_model(name, pkg, a) == Ok::<ServiceModel, ParseFault>(
            ServiceModel {
                name,
                request: message_model(name + "_Request"@, pkg, a)->Ok_0,
                response: MessageModel {
                    name: name + "_Response"@,
                    fields: Seq::empty(),
                    constants: Seq::empty(),
                },
            },
        ),
{
    let la = lines(a);
    let start = seq![Seq::<char>::empty()];
    lemma_undivided_section(start, la);
    assert(Seq::<char>::empty() + rejoined(la) =~= rejoined(la));
    assert(section(a, 0) == rejoined(la));
    assert(section(a, 1) == Seq::<char>::empty());
    assert(lines(Seq::<char>::empty()) == Seq::<Seq<char>>::empty());
    lemma_rejoined_message(name + "_Request"@, pkg, a);
}

} // verus!
