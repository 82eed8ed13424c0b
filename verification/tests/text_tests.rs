use podsync::slug::get_slug;
use podsync::text::parse_u64;
use podsync::utils::{from_sec, get_excerpt, get_first_words, striptags, to_time, truncate_chars};

#[test]
fn test_get_first_words() {
    let content = "En un lugar de la Mancha, de cuyo nombre no quiero acordarme, no ha mucho tiempo que vivía un hidalgo de los de lanza en astillero, adarga antigua, rocín flaco y galgo corredor. Una olla de algo más vaca que carnero, salpicón las más noches, duelos y quebrantos los sábados, lantejas los viernes, algún palomino de añadidura los domingos, consumían las tres partes de su hacienda. El resto della concluían sayo de velarte, calzas de velludo para las fiestas, con sus pantuflos de lo mesmo, y los días de entresemana se honraba con su vellorí de lo más fino. Tenía en su casa una ama que pasaba de los cuarenta, y una sobrina que no llegaba a los veinte, y un mozo de campo y plaza, que así ensillaba el rocín como tomaba la podadera. Frisaba la edad de nuestro hidalgo con los cincuenta años; era de complexión recia, seco de carnes, enjuto de rostro, gran madrugador y amigo de la caza. Quieren decir que tenía el sobrenombre de Quijada, o Quesada, que en esto hay alguna diferencia en los autores que deste caso escriben; aunque por conjeturas verosímiles se deja entender que se llamaba Quijana. Pero esto importa poco a nuestro cuento: basta que en la narración dél no se salga un punto de la verdad.";
    let fw = get_first_words(content, 55);
    println!("FW: {}", fw);
    assert_ne!(fw.len(), 55);
}

#[test]
fn slug_of_accented_title() {
    let s = get_slug("Él Día — de los Muertos!!");
    assert_eq!(s, "el-dia-de-los-muertos");
    assert!(!s.contains("--"));
    assert!(!s.starts_with('-'));
    assert!(!s.ends_with('-'));
    assert_eq!(get_slug(&s), s);
}

#[test]
fn slug_is_idempotent_on_plain_text() {
    let s = get_slug("  Un *Título* con  (cosas) raras  ");
    assert_eq!(get_slug(&s), s);
}

#[test]
fn slug_of_only_punctuation_is_empty() {
    assert_eq!(get_slug("!!!"), "");
    assert_eq!(get_slug("-"), "");
}

#[test]
fn excerpt_of_short_text_is_trimmed_content() {
    assert_eq!(get_excerpt("  hola  mundo  "), "hola  mundo");
}

#[test]
fn excerpt_never_exceeds_source_length() {
    let content = "palabra ".repeat(100);
    let e = get_excerpt(&content);
    assert!(e.chars().count() <= content.chars().count());
}

#[test]
fn first_words_cuts_at_the_given_separator() {
    assert_eq!(get_first_words("a b c d e f", 2), "a b c");
    assert_eq!(get_first_words("a  b  c  d", 2), "a b c");
}

#[test]
fn from_sec_formats() {
    assert_eq!(from_sec(3661), "1:01:01");
    assert_eq!(from_sec(61), "1:01");
    assert_eq!(from_sec(5), "5");
    assert_eq!(from_sec(0), "0");
    assert_eq!(from_sec(7325), "2:02:05");
}

#[test]
fn to_time_splits() {
    assert_eq!(to_time(3661), (1, 1, 1));
    assert_eq!(to_time(59), (0, 0, 59));
}

#[test]
fn striptags_removes_markup() {
    assert_eq!(striptags(String::from("<p>hola</p> mundo")), "hola mundo");
    assert_eq!(striptags(String::from("sin etiquetas")), "sin etiquetas");
}

#[test]
fn truncate_chars_cuts() {
    assert_eq!(truncate_chars("hello", 3), "hel");
    assert_eq!(truncate_chars("hi", 10), "hi");
}

#[test]
fn parse_u64_reads_decimals() {
    assert_eq!(parse_u64("301"), Some(301));
    assert_eq!(parse_u64(""), None);
    assert_eq!(parse_u64("30a"), None);
    assert_eq!(parse_u64("18446744073709551615"), Some(u64::MAX));
    assert_eq!(parse_u64("18446744073709551616"), None);
}
